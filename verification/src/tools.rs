//! Tool descriptors and the aggregate tool namespace.
//!
//! A child reports its tools as JSON documents; each is kept verbatim with
//! its id and name read off. The aggregate namespace flattens every child's
//! list under proxy ids `{server_id}:{tool_id}`; with server ids free of the
//! separator and tool ids unique within a child, no two entries of the
//! flattened list share a proxy id.

use vstd::prelude::*;
use crate::json::{spec_get, clone_json, JsonSpec, JsonValue};

verus! {

/// A tool as one child reported it: the document verbatim, with the string
/// `id` and `name` fields read off (empty where absent).
#[derive(Debug, PartialEq)]
pub struct ToolDescriptor {
    pub id: String,
    pub name: String,
    pub doc: JsonValue,
}

/// The mathematical shape of a tool descriptor.
pub struct ToolDescSpec {
    pub id: Seq<char>,
    pub name: Seq<char>,
    pub doc: JsonSpec,
}

impl View for ToolDescriptor {
    type V = ToolDescSpec;

    open spec fn view(&self) -> ToolDescSpec {
        ToolDescSpec { id: self.id@, name: self.name@, doc: self.doc@ }
    }
}

/// The denotation of a descriptor list.
pub open spec fn tools_view(s: Seq<ToolDescriptor>) -> Seq<ToolDescSpec> {
    Seq::new(s.len(), |i: int| s[i]@)
}

/// A string field of a document: the field's text where the document is an
/// object holding it as a string; empty otherwise.
pub open spec fn spec_str_field(j: JsonSpec, k: Seq<char>) -> Seq<char> {
    match spec_get(j, k) {
        Some(v) => if v is Str {
            v->Str_0
        } else {
            Seq::empty()
        },
        None => Seq::empty(),
    }
}

/// Read a string field off a document, empty where absent or not a string.
pub fn get_str_field(doc: &JsonValue, key: &String) -> (r: String)
    ensures
        r@ == spec_str_field(doc@, key@),
{
    match doc.get(key) {
        Some(v) => match v.as_str() {
            Some(s) => s.clone(),
            None => String::new(),
        },
        None => String::new(),
    }
}

/// What a reported document describes.
pub open spec fn spec_descriptor(j: JsonSpec) -> ToolDescSpec {
    ToolDescSpec { id: spec_str_field(j, "id"@), name: spec_str_field(j, "name"@), doc: j }
}

/// Read one reported document into a descriptor.
pub fn descriptor_from_doc(doc: JsonValue) -> (t: ToolDescriptor)
    ensures
        t@ == spec_descriptor(doc@),
{
    let id_key = "id".to_owned();
    let name_key = "name".to_owned();
    let id = get_str_field(&doc, &id_key);
    let name = get_str_field(&doc, &name_key);
    ToolDescriptor { id, name, doc }
}

/// Whether some descriptor in the list carries the id.
pub open spec fn has_tool_id(ts: Seq<ToolDescSpec>, id: Seq<char>) -> bool {
    exists|i: int| 0 <= i < ts.len() && ts[i].id == id
}

/// No two descriptors share an id.
pub open spec fn tool_ids_unique(ts: Seq<ToolDescSpec>) -> bool {
    forall|i: int, j: int| 0 <= i < j < ts.len() ==> ts[i].id != ts[j].id
}

/// The list with every repeat of an id dropped, keeping first occurrences.
pub open spec fn dedup_tools(ts: Seq<ToolDescSpec>) -> Seq<ToolDescSpec>
    decreases ts.len(),
{
    if ts.len() == 0 {
        Seq::empty()
    } else {
        let d = dedup_tools(ts.drop_last());
        if has_tool_id(ts.drop_last(), ts.last().id) {
            d
        } else {
            d.push(ts.last())
        }
    }
}

/// Dropping repeats yields unique ids and keeps exactly the ids present.
pub proof fn lemma_dedup_tools(ts: Seq<ToolDescSpec>)
    ensures
        tool_ids_unique(dedup_tools(ts)),
        forall|id: Seq<char>| #[trigger] has_tool_id(dedup_tools(ts), id) == has_tool_id(ts, id),
    decreases ts.len(),
{
    if ts.len() > 0 {
        let head = ts.drop_last();
        lemma_dedup_tools(head);
        let d = dedup_tools(head);
        assert forall|id: Seq<char>| #[trigger] has_tool_id(dedup_tools(ts), id) == has_tool_id(
            ts,
            id,
        ) by {
            if has_tool_id(ts, id) {
                let w = choose|i: int| 0 <= i < ts.len() && ts[i].id == id;
                if w < ts.len() - 1 {
                    assert(head[w].id == id);
                    assert(has_tool_id(head, id));
                }
                if has_tool_id(head, id) {
                    assert(has_tool_id(d, id));
                    let w2 = choose|i: int| 0 <= i < d.len() && d[i].id == id;
                    if has_tool_id(head, ts.last().id) {
                        assert(dedup_tools(ts) == d);
                        assert(dedup_tools(ts)[w2].id == id);
                    } else {
                        assert(dedup_tools(ts) == d.push(ts.last()));
                        assert(d.push(ts.last())[w2] == d[w2]);
                        assert(dedup_tools(ts)[w2].id == id);
                    }
                    assert(has_tool_id(dedup_tools(ts), id));
                } else {
                    assert(w == ts.len() - 1);
                    assert(ts.last().id == id);
                    assert(dedup_tools(ts) == d.push(ts.last()));
                    assert(dedup_tools(ts).last().id == id);
                    assert(has_tool_id(dedup_tools(ts), id));
                }
            }
            if has_tool_id(dedup_tools(ts), id) {
                let w = choose|i: int|
                    0 <= i < dedup_tools(ts).len() && dedup_tools(ts)[i].id == id;
                if has_tool_id(head, ts.last().id) {
                    assert(dedup_tools(ts) == d);
                    assert(d[w].id == id);
                    assert(has_tool_id(d, id));
                    assert(has_tool_id(head, id));
                    let w2 = choose|i: int| 0 <= i < head.len() && head[i].id == id;
                    assert(head[w2] == ts[w2]);
                    assert(has_tool_id(ts, id));
                } else {
                    assert(dedup_tools(ts) == d.push(ts.last()));
                    if w < d.len() {
                        assert(d.push(ts.last())[w] == d[w]);
                        assert(has_tool_id(d, id));
                        assert(has_tool_id(head, id));
                        let w2 = choose|i: int| 0 <= i < head.len() && head[i].id == id;
                        assert(head[w2] == ts[w2]);
                        assert(has_tool_id(ts, id));
                    } else {
                        assert(dedup_tools(ts)[w] == ts.last());
                        assert(ts.last().id == id);
                        assert(has_tool_id(ts, id));
                    }
                }
            }
        }
        if !has_tool_id(head, ts.last().id) {
            assert forall|i: int, j: int|
                0 <= i < j < dedup_tools(ts).len() implies dedup_tools(ts)[i].id != dedup_tools(
                ts,
            )[j].id by {
                if j < d.len() {
                } else {
                    assert(dedup_tools(ts)[j] == ts.last());
                    assert(d[i].id == dedup_tools(ts)[i].id);
                    if d[i].id == ts.last().id {
                        assert(has_tool_id(d, ts.last().id));
                        assert(has_tool_id(head, ts.last().id));
                    }
                }
            }
        }
    }
}

/// Drop repeated ids from a descriptor list, keeping first occurrences.
pub fn dedup_descriptors(ts: Vec<ToolDescriptor>) -> (r: Vec<ToolDescriptor>)
    ensures
        tools_view(r@) == dedup_tools(tools_view(ts@)),
        tool_ids_unique(tools_view(r@)),
{
    proof {
        lemma_dedup_tools(tools_view(ts@));
    }
    let mut out: Vec<ToolDescriptor> = Vec::new();
    let mut i: usize = 0;
    while i < ts.len()
        invariant
            i <= ts@.len(),
            tools_view(out@) == dedup_tools(tools_view(ts@).subrange(0, i as int)),
        decreases ts@.len() - i,
    {
        let ghost prefix = tools_view(ts@).subrange(0, i as int);
        let ghost prefix2 = tools_view(ts@).subrange(0, i + 1 as int);
        proof {
            lemma_dedup_tools(prefix);
            assert(prefix2.drop_last() =~= prefix);
            assert(prefix2.last() == ts@[i as int]@);
        }
        // look the id up among those already kept
        let mut seen = false;
        let mut q: usize = 0;
        while q < out.len()
            invariant
                i < ts@.len(),
                q <= out@.len(),
                seen ==> has_tool_id(tools_view(out@), ts@[i as int]@.id),
                !seen ==> forall|p: int| 0 <= p < q ==> out@[p]@.id != ts@[i as int]@.id,
            decreases out@.len() - q,
        {
            if out[q].id == ts[i].id {
                proof {
                    assert(tools_view(out@)[q as int].id == ts@[i as int]@.id);
                }
                seen = true;
            }
            q += 1;
        }
        proof {
            if !seen {
                assert(!has_tool_id(tools_view(out@), ts@[i as int]@.id));
            }
            assert(has_tool_id(tools_view(out@), ts@[i as int]@.id) == has_tool_id(
                prefix,
                ts@[i as int]@.id,
            ));
        }
        if !seen {
            let t = ToolDescriptor {
                id: ts[i].id.clone(),
                name: ts[i].name.clone(),
                doc: clone_json(&ts[i].doc),
            };
            out.push(t);
            proof {
                assert(tools_view(out@) =~= dedup_tools(prefix2));
            }
        } else {
            proof {
                assert(tools_view(out@) =~= dedup_tools(prefix2));
            }
        }
        i += 1;
    }
    proof {
        assert(tools_view(ts@).subrange(0, ts@.len() as int) =~= tools_view(ts@));
        lemma_dedup_tools(tools_view(ts@));
    }
    out
}

/// One entry of the flattened namespace: the originating server, the proxy
/// id callers address it by, and the tool document verbatim.
#[derive(Debug, PartialEq)]
pub struct ProxyTool {
    pub server_id: String,
    pub proxy_id: String,
    pub tool_id: String,
    pub doc: JsonValue,
}

/// The mathematical shape of a namespace entry.
pub struct ProxyToolSpec {
    pub server_id: Seq<char>,
    pub proxy_id: Seq<char>,
    pub tool_id: Seq<char>,
    pub doc: JsonSpec,
}

impl View for ProxyTool {
    type V = ProxyToolSpec;

    open spec fn view(&self) -> ProxyToolSpec {
        ProxyToolSpec {
            server_id: self.server_id@,
            proxy_id: self.proxy_id@,
            tool_id: self.tool_id@,
            doc: self.doc@,
        }
    }
}

/// The namespace entries of one server: one per tool, each under the proxy
/// id `{server_id}:{tool_id}`.
pub open spec fn spec_server_tools(sid: Seq<char>, ts: Seq<ToolDescSpec>) -> Seq<ProxyToolSpec> {
    Seq::new(
        ts.len(),
        |i: int| ProxyToolSpec {
            server_id: sid,
            proxy_id: sid + seq![':'] + ts[i].id,
            tool_id: ts[i].id,
            doc: ts[i].doc,
        },
    )
}

/// The whole namespace: every server's entries, in table order.
pub open spec fn spec_all_tools(ss: Seq<(Seq<char>, Seq<ToolDescSpec>)>) -> Seq<ProxyToolSpec>
    decreases ss.len(),
{
    if ss.len() == 0 {
        Seq::empty()
    } else {
        spec_all_tools(ss.drop_last()) + spec_server_tools(ss.last().0, ss.last().1)
    }
}

/// Two proxy ids agree only when server and tool agree: with the server ids
/// free of the separator, the text before its first occurrence is the
/// server id.
pub proof fn lemma_proxy_id_injective(s1: Seq<char>, t1: Seq<char>, s2: Seq<char>, t2: Seq<char>)
    requires
        !s1.contains(':'),
        !s2.contains(':'),
        s1 + seq![':'] + t1 == s2 + seq![':'] + t2,
    ensures
        s1 == s2,
        t1 == t2,
{
    let a = s1 + seq![':'] + t1;
    let b = s2 + seq![':'] + t2;
    assert(a.len() == s1.len() + 1 + t1.len());
    assert(b.len() == s2.len() + 1 + t2.len());
    if s1.len() < s2.len() {
        assert(a[s1.len() as int] == ':');
        assert(b[s1.len() as int] == s2[s1.len() as int]);
        assert(s2[s1.len() as int] == ':');
        assert(s2.contains(':'));
    } else if s2.len() < s1.len() {
        assert(b[s2.len() as int] == ':');
        assert(a[s2.len() as int] == s1[s2.len() as int]);
        assert(s1[s2.len() as int] == ':');
        assert(s1.contains(':'));
    } else {
        assert(s1 =~= s2) by {
            assert(forall|i: int| 0 <= i < s1.len() ==> a[i] == s1[i] && b[i] == s2[i]);
        }
        assert(t1 =~= t2) by {
            assert(forall|i: int|
                0 <= i < t1.len() ==> a[s1.len() + 1 + i] == t1[i] && b[s2.len() + 1 + i]
                    == t2[i]);
        }
    }
}

/// What the namespace is built from: every entry names a server of the
/// table, under that server's id, with its proxy id composed from it.
pub proof fn lemma_all_tools_shape(ss: Seq<(Seq<char>, Seq<ToolDescSpec>)>)
    ensures
        forall|i: int| 0 <= i < spec_all_tools(ss).len() ==> exists|s: int|
            0 <= s < ss.len() && (#[trigger] spec_all_tools(ss)[i]).server_id == ss[s].0
                && spec_all_tools(ss)[i].proxy_id == ss[s].0 + seq![':']
                + spec_all_tools(ss)[i].tool_id && has_tool_id(
                ss[s].1,
                spec_all_tools(ss)[i].tool_id,
            ),
    decreases ss.len(),
{
    if ss.len() > 0 {
        let head = ss.drop_last();
        lemma_all_tools_shape(head);
        let front = spec_all_tools(head);
        let back = spec_server_tools(ss.last().0, ss.last().1);
        let whole = spec_all_tools(ss);
        assert forall|i: int| 0 <= i < whole.len() implies exists|s: int|
            0 <= s < ss.len() && (#[trigger] whole[i]).server_id == ss[s].0 && whole[i].proxy_id
                == ss[s].0 + seq![':'] + whole[i].tool_id && has_tool_id(
                ss[s].1,
                whole[i].tool_id,
            ) by {
            if i < front.len() {
                assert(whole[i] == front[i]);
                let s0 = choose|s: int|
                    0 <= s < head.len() && (front[i]).server_id == head[s].0 && front[i].proxy_id
                        == head[s].0 + seq![':'] + front[i].tool_id && has_tool_id(
                        head[s].1,
                        front[i].tool_id,
                    );
                assert(ss[s0] == head[s0]);
                assert(0 <= s0 < ss.len() && whole[i].server_id == ss[s0].0 && whole[i].proxy_id
                    == ss[s0].0 + seq![':'] + whole[i].tool_id && has_tool_id(
                    ss[s0].1,
                    whole[i].tool_id,
                ));
            } else {
                let p = i - front.len();
                assert(whole[i] == back[p]);
                let s0 = ss.len() - 1;
                assert(ss.last().1[p].id == whole[i].tool_id);
                assert(has_tool_id(ss[s0].1, whole[i].tool_id));
                assert(0 <= s0 < ss.len() && whole[i].server_id == ss[s0].0 && whole[i].proxy_id
                    == ss[s0].0 + seq![':'] + whole[i].tool_id);
            }
        }
    }
}

/// Proxy-id uniqueness: over a table whose server ids are distinct and free
/// of the separator, and whose tool ids are unique within each server, the
/// flattened namespace repeats no proxy id.
pub proof fn lemma_all_tools_distinct(ss: Seq<(Seq<char>, Seq<ToolDescSpec>)>)
    requires
        forall|i: int, j: int| 0 <= i < j < ss.len() ==> ss[i].0 != ss[j].0,
        forall|s: int| 0 <= s < ss.len() ==> !(#[trigger] ss[s].0).contains(':'),
        forall|s: int| 0 <= s < ss.len() ==> tool_ids_unique((#[trigger] ss[s]).1),
    ensures
        forall|i: int, j: int| 0 <= i < j < spec_all_tools(ss).len()
            ==> (#[trigger] spec_all_tools(ss)[i]).proxy_id
            != (#[trigger] spec_all_tools(ss)[j]).proxy_id,
    decreases ss.len(),
{
    if ss.len() > 0 {
        let head = ss.drop_last();
        assert(forall|s: int| 0 <= s < head.len() ==> head[s] == ss[s]);
        lemma_all_tools_distinct(head);
        lemma_all_tools_shape(head);
        let front = spec_all_tools(head);
        let back = spec_server_tools(ss.last().0, ss.last().1);
        let whole = spec_all_tools(ss);
        assert forall|i: int, j: int| 0 <= i < j < whole.len() implies (#[trigger] whole[i]).proxy_id
            != (#[trigger] whole[j]).proxy_id by {
            if j < front.len() {
                assert(whole[i] == front[i] && whole[j] == front[j]);
            } else if i >= front.len() {
                let p = i - front.len();
                let q = j - front.len();
                assert(whole[i] == back[p] && whole[j] == back[q]);
                assert(ss.last().1[p].id != ss.last().1[q].id);
                if whole[i].proxy_id == whole[j].proxy_id {
                    lemma_proxy_id_injective(
                        ss.last().0,
                        ss.last().1[p].id,
                        ss.last().0,
                        ss.last().1[q].id,
                    );
                }
            } else {
                assert(whole[i] == front[i]);
                let q = j - front.len();
                assert(whole[j] == back[q]);
                let s0 = choose|s: int|
                    0 <= s < head.len() && (front[i]).server_id == head[s].0 && front[i].proxy_id
                        == head[s].0 + seq![':'] + front[i].tool_id && has_tool_id(
                        head[s].1,
                        front[i].tool_id,
                    );
                assert(ss[s0].0 != ss.last().0);
                if whole[i].proxy_id == whole[j].proxy_id {
                    lemma_proxy_id_injective(
                        ss[s0].0,
                        front[i].tool_id,
                        ss.last().0,
                        ss.last().1[q].id,
                    );
                }
            }
        }
    }
}

} // verus!
