//! Namespacing: upstream tools are merged under `<jack>__<tool>`, and a merged
//! name is split on its first `__` to route a call back.

use vstd::prelude::*;
#[allow(unused_imports)]
use vstd::string::*;

use crate::config::validate::valid_jack_name;
use crate::json::{put_member, Doc, Json};
use crate::name_map::view_opt;
use crate::text::{chars_of, find_from, first_at, holds, occurs_at};

verus! {

/// The merged name of an upstream tool.
pub open spec fn merged(jack: Seq<char>, tool: Seq<char>) -> Seq<char> {
    jack + "__"@ + tool
}

/// The jack and the tool that a merged name is made of: what stands before and
/// after its first `__`.
pub open spec fn parted(name: Seq<char>) -> Option<(Seq<char>, Seq<char>)> {
    if holds(name, "__"@) {
        let i = choose|i: int| first_at(name, "__"@, 0, i);
        Some((name.subrange(0, i), name.subrange(i + 2, name.len() as int)))
    } else {
        None
    }
}

pub(crate) proof fn lemma_parted_at(name: Seq<char>, i: int)
    requires
        first_at(name, "__"@, 0, i),
    ensures
        parted(name) == Some((name.subrange(0, i), name.subrange(i + 2, name.len() as int))),
{
    assert(occurs_at(name, "__"@, i));
    let c = choose|c: int| first_at(name, "__"@, 0, c);
    if c < i {
        assert(!occurs_at(name, "__"@, c));
    } else if i < c {
        assert(!occurs_at(name, "__"@, i));
    }
}

pub(crate) proof fn lemma_first_exists(name: Seq<char>, i: int)
    requires
        occurs_at(name, "__"@, i),
    ensures
        exists|f: int| first_at(name, "__"@, 0, f),
    decreases i,
{
    if forall|k: int| 0 <= k < i ==> !occurs_at(name, "__"@, k) {
        assert(first_at(name, "__"@, 0, i));
    } else {
        let k = choose|k: int| 0 <= k < i && occurs_at(name, "__"@, k);
        lemma_first_exists(name, k);
    }
}

/// Splitting a merged name gives back the jack and the tool it was made of, for
/// every jack name without the separator that does not end in `_`, and for
/// every tool name whatsoever.
pub proof fn split_undoes_namespace(jack: Seq<char>, tool: Seq<char>)
    requires
        !holds(jack, "__"@),
        jack.len() == 0 || jack.last() != '_',
    ensures
        parted(merged(jack, tool)) == Some((jack, tool)),
{
    reveal_strlit("__");
    let name = merged(jack, tool);
    let i = jack.len() as int;
    assert(name.subrange(i, i + 2) =~= "__"@);
    assert(occurs_at(name, "__"@, i));
    assert forall|k: int| 0 <= k < i implies !occurs_at(name, "__"@, k) by {
        if occurs_at(name, "__"@, k) {
            assert(name.subrange(k, k + 2)[0] == '_' && name.subrange(k, k + 2)[1] == '_');
            assert(name[k] == '_' && name[k + 1] == '_');
            if k + 1 < i {
                assert(jack.subrange(k, k + 2) =~= "__"@);
                assert(occurs_at(jack, "__"@, k));
            } else {
                assert(jack.last() == '_');
            }
        }
    }
    lemma_parted_at(name, i);
    assert(name.subrange(0, i) =~= jack);
    assert(name.subrange(i + 2, name.len() as int) =~= tool);
}

/// Two jacks with valid names that do not end in `_` never share a merged name.
pub proof fn merged_names_do_not_collide(j1: Seq<char>, t1: Seq<char>, j2: Seq<char>, t2: Seq<char>)
    requires
        valid_jack_name(j1) && j1.last() != '_',
        valid_jack_name(j2) && j2.last() != '_',
        merged(j1, t1) == merged(j2, t2),
    ensures
        j1 == j2 && t1 == t2,
{
    split_undoes_namespace(j1, t1);
    split_undoes_namespace(j2, t2);
}

/// Build the namespaced tool name: `<jack>__<tool>`.
pub fn namespace(jack: &str, tool: &str) -> (r: String)
    ensures
        r@ == merged(jack@, tool@),
{
    let mut s = jack.to_owned();
    s.append("__");
    s.append(tool);
    s
}

/// Split a merged name on its first `__` into `(jack, tool)`.
pub fn split_namespaced(name: &str) -> (r: Option<(&str, &str)>)
    ensures
        r is None <==> !holds(name@, "__"@),
        r is None <==> parted(name@) is None,
        r matches Some(p) ==> parted(name@) == Some((p.0@, p.1@)) && name@ == p.0@ + "__"@ + p.1@,
{
    let v = chars_of(name);
    let sep = chars_of("__");
    proof {
        reveal_strlit("__");
    }
    match find_from(&v, &sep, 0) {
        Some(i) => {
            proof {
                lemma_parted_at(name@, i as int);
                assert(name@ =~= name@.subrange(0, i as int) + name@.subrange(i as int, i + 2) + name@.subrange(
                    i + 2,
                    name@.len() as int,
                ));
            }
            let n: usize = v.len();
            assert(i + 2 <= n);
            Some((name.substring_char(0, i), name.substring_char(i + 2, n)))
        },
        None => None,
    }
}

/// The name of an upstream tool, as far as it has one.
pub open spec fn tool_name(tool: Doc) -> Seq<char> {
    match tool.text_member("name"@) {
        Some(t) => t,
        None => Seq::empty(),
    }
}

/// The tool under its merged name, all else of it untouched. What is no object
/// gives an object with the name alone.
pub open spec fn merged_tool(jack: Seq<char>, tool: Doc) -> Doc {
    let name = Doc::Text(merged(jack, tool_name(tool)));
    match tool {
        Doc::Object(members) => Doc::Object(put_member(members, "name"@, name)),
        _ => Doc::empty().with("name"@, name),
    }
}

/// Only the name of a tool changes when it is merged.
pub proof fn merging_rewrites_name_only(jack: Seq<char>, tool: Doc, key: Seq<char>)
    requires
        tool is Object,
    ensures
        merged_tool(jack, tool).text_member("name"@) == Some(merged(jack, tool_name(tool))),
        key != "name"@ ==> merged_tool(jack, tool).member(key) == tool.member(key),
{
    let name = Doc::Text(merged(jack, tool_name(tool)));
    crate::json::lemma_put_member(tool->Object_0, "name"@, name, key);
    crate::json::lemma_put_member(tool->Object_0, "name"@, name, "name"@);
}

/// A merged name longer than this many characters is worth a warning.
pub const MAX_MERGED_LEN: usize = 64;

/// The line of the log for a tool whose merged name is long; none for any other.
pub fn long_name_line(jack: &str, tool: &Json) -> (r: Option<String>)
    ensures
        view_opt(r) == ({
            let name = merged(jack@, tool_name(tool@));
            if name.len() > 64 {
                Some(
                    "tools: WARNING merged tool name '"@ + name
                        + "' exceeds 64 chars (truncation-with-hash is a follow-up)"@,
                )
            } else {
                None
            }
        }),
{
    let name = merged_name(jack, tool);
    if chars_of(name.as_str()).len() <= MAX_MERGED_LEN {
        return None;
    }
    let mut line = "tools: WARNING merged tool name '".to_owned();
    line.append(name.as_str());
    line.append("' exceeds 64 chars (truncation-with-hash is a follow-up)");
    Some(line)
}

fn merged_name(jack: &str, tool: &Json) -> (r: String)
    ensures
        r@ == merged(jack@, tool_name(tool@)),
{
    match tool.text_member("name") {
        Some(t) => namespace(jack, t.as_str()),
        None => {
            let s = namespace(jack, "");
            proof {
                reveal_strlit("");
                assert(""@ =~= Seq::<char>::empty());
            }
            s
        },
    }
}

/// Rewrite one upstream tool definition's name to the merged form.
pub fn namespaced_tool(jack: &str, tool: &Json) -> (r: Json)
    ensures
        r@ == merged_tool(jack@, tool@),
{
    let name = merged_name(jack, tool);
    match tool {
        Json::Object(_) => tool.with_put("name", Json::Text(name)),
        _ => Json::empty_object().with("name", Json::Text(name)),
    }
}

} // verus!
