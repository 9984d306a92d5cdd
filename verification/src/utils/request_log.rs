//! The request log: what is kept out of it, how its lines read, and which files
//! it is made of.

use vstd::prelude::*;
#[allow(unused_imports)]
use vstd::string::*;

use crate::app_state::state::AppState;
use crate::config::grants::name_of;
use crate::json::{
    at, docs, json_written, lemma_array_view, lemma_object_view, member_docs, write_json, Doc, Json,
};
use crate::name_map::{before, before_irreflexive, before_transitive, text_before, view_opt, views, Replica};
use crate::numerals::{decimal, decimal_reads_back, decimal_text, numeral_value, parse_numeral};
use crate::text::{
    chars_of, contains_text, ends_with_text, holds, join_texts, joined, lower_text, lowered, occurs_at, same_text,
    slice_chars, starts_with_text, text_of, texts,
};

verus! {

/// A file of this many bytes is full.
pub const MAX_REQUEST_FILE_BYTES: u64 = 5_242_880;

/// At most this many files are kept.
pub const MAX_REQUEST_FILES: usize = 20;

// ---- what is kept out ----------------------------------------------------

/// Whether a header carries a secret: by its name, in any case.
pub open spec fn secret_header(name: Seq<char>) -> bool {
    let l = lowered(name);
    ||| l == "authorization"@
    ||| l == "cookie"@
    ||| l == "set-cookie"@
    ||| holds(l, "token"@)
    ||| holds(l, "key"@)
    ||| holds(l, "secret"@)
    ||| holds(l, "auth"@)
    ||| holds(l, "password"@)
}

/// Whether a header carries a secret.
pub fn is_sensitive_header(name: &str) -> (r: bool)
    ensures
        r == secret_header(name@),
{
    let l = lower_text(name);
    let l = l.as_str();
    same_text(l, "authorization") || same_text(l, "cookie") || same_text(l, "set-cookie") || contains_text(l, "token")
        || contains_text(l, "key") || contains_text(l, "secret") || contains_text(l, "auth") || contains_text(
        l,
        "password",
    )
}

/// Whether a member of an object carries a secret: by its name, in any case.
pub open spec fn secret_key(key: Seq<char>) -> bool {
    let l = lowered(key);
    ||| holds(l, "token"@)
    ||| holds(l, "key"@)
    ||| holds(l, "secret"@)
    ||| holds(l, "auth"@)
    ||| holds(l, "password"@)
    ||| holds(l, "cookie"@)
    ||| holds(l, "bearer"@)
}

/// Whether a member of an object carries a secret.
pub fn is_sensitive_json_key(key: &str) -> (r: bool)
    ensures
        r == secret_key(key@),
{
    let l = lower_text(key);
    let l = l.as_str();
    contains_text(l, "token") || contains_text(l, "key") || contains_text(l, "secret") || contains_text(l, "auth")
        || contains_text(l, "password") || contains_text(l, "cookie") || contains_text(l, "bearer")
}

/// A value without its secrets: whatever stands under the name of a secret, at
/// any depth, is replaced, and all else is kept.
pub open spec fn redacted(d: Doc) -> Doc
    decreases d,
{
    match d {
        Doc::Object(members) => Doc::Object(
            Seq::new(
                members.len(),
                |i: int|
                    if 0 <= i < members.len() {
                        at(
                            members[i].key,
                            if secret_key(members[i].key) {
                                Doc::Text("<redacted>"@)
                            } else {
                                redacted(members[i].value)
                            },
                        )
                    } else {
                        at(Seq::empty(), Doc::Null)
                    },
            ),
        ),
        Doc::Array(items) => Doc::Array(
            Seq::new(
                items.len(),
                |i: int|
                    if 0 <= i < items.len() {
                        redacted(items[i])
                    } else {
                        Doc::Null
                    },
            ),
        ),
        other => other,
    }
}

/// A value without its secrets.
pub fn redact_body(value: &Json) -> (r: Json)
    ensures
        r@ == redacted(value@),
    decreases value,
{
    match value {
        Json::Object(members) => {
            let mut out: Vec<(String, Json)> = Vec::new();
            proof {
                lemma_object_view(*members);
            }
            let ghost all = member_docs(members@);
            let ghost goal = redacted(value@)->Object_0;
            assert(goal.len() == all.len());
            assert(member_docs(out@) =~= goal.subrange(0, 0));
            let mut i: usize = 0;
            while i < members.len()
                invariant
                    i <= members.len(),
                    value == Json::Object(*members),
                    all == member_docs(members@),
                    value@ == Doc::Object(all),
                    goal == redacted(value@)->Object_0,
                    goal.len() == all.len(),
                    member_docs(out@) == goal.subrange(0, i as int),
                decreases members.len() - i,
            {
                let ghost prev = member_docs(out@);
                assert(value->Object_0 == *members);
                assert(decreases_to!(*value => value->Object_0));
                assert(decreases_to!(*members => members[i as int]));
                assert(decreases_to!(members[i as int] => members[i as int].1));
                assert(all[i as int] == at(members@[i as int].0@, members@[i as int].1@));
                let v = if is_sensitive_json_key(members[i].0.as_str()) {
                    Json::from_text("<redacted>")
                } else {
                    redact_body(&members[i].1)
                };
                let ghost shown = v@;
                out.push((members[i].0.clone(), v));
                assert(member_docs(out@) =~= prev.push(at(members@[i as int].0@, shown)));
                assert(goal[i as int] == at(members@[i as int].0@, shown));
                i = i + 1;
                assert(member_docs(out@) =~= goal.subrange(0, i as int));
            }
            proof {
                assert(goal.subrange(0, goal.len() as int) =~= goal);
                lemma_object_view(out);
            }
            Json::Object(out)
        },
        Json::Array(items) => {
            let mut out: Vec<Json> = Vec::new();
            proof {
                lemma_array_view(*items);
            }
            let ghost all = docs(items@);
            let ghost goal = redacted(value@)->Array_0;
            assert(goal.len() == all.len());
            assert(docs(out@) =~= goal.subrange(0, 0));
            let mut i: usize = 0;
            while i < items.len()
                invariant
                    i <= items.len(),
                    value == Json::Array(*items),
                    all == docs(items@),
                    value@ == Doc::Array(all),
                    goal == redacted(value@)->Array_0,
                    goal.len() == all.len(),
                    docs(out@) == goal.subrange(0, i as int),
                decreases items.len() - i,
            {
                let ghost prev = docs(out@);
                assert(value->Array_0 == *items);
                assert(decreases_to!(*value => value->Array_0));
                assert(decreases_to!(*items => items[i as int]));
                assert(all[i as int] == items@[i as int]@);
                let v = redact_body(&items[i]);
                out.push(v);
                assert(docs(out@) =~= prev.push(v@));
                assert(goal[i as int] == v@);
                i = i + 1;
                assert(docs(out@) =~= goal.subrange(0, i as int));
            }
            proof {
                assert(goal.subrange(0, goal.len() as int) =~= goal);
                lemma_array_view(out);
            }
            Json::Array(out)
        },
        _ => value.replica(),
    }
}

/// Whether no secret is left in a value: whatever stands under the name of a
/// secret, at any depth, is the replacement.
pub open spec fn secret_free(d: Doc) -> bool
    decreases d,
{
    match d {
        Doc::Object(members) => forall|i: int| #![trigger members[i]]
            0 <= i < members.len() ==> if secret_key(members[i].key) {
                members[i].value == Doc::Text("<redacted>"@)
            } else {
                secret_free(members[i].value)
            },
        Doc::Array(items) => forall|i: int| #![trigger items[i]] 0 <= i < items.len() ==> secret_free(items[i]),
        _ => true,
    }
}

/// No secret is left in a redacted value, and redacting it again changes nothing.
pub proof fn redaction_is_complete(d: Doc)
    ensures
        secret_free(redacted(d)),
        redacted(redacted(d)) == redacted(d),
    decreases d,
{
    match d {
        Doc::Object(members) => {
            let out = redacted(d)->Object_0;
            assert(out.len() == members.len());
            assert forall|i: int| #![trigger out[i]] 0 <= i < out.len() implies if secret_key(out[i].key) {
                out[i].value == Doc::Text("<redacted>"@)
            } else {
                secret_free(out[i].value) && redacted(out[i].value) == out[i].value
            } by {
                assert(out[i].key == members[i].key);
                if !secret_key(members[i].key) {
                    redaction_is_complete(members[i].value);
                }
            }
            let twice = redacted(redacted(d))->Object_0;
            assert(twice =~= out);
        },
        Doc::Array(items) => {
            let out = redacted(d)->Array_0;
            assert(out.len() == items.len());
            assert forall|i: int| #![trigger out[i]] 0 <= i < out.len() implies secret_free(out[i]) && redacted(
                out[i],
            ) == out[i] by {
                redaction_is_complete(items[i]);
            }
            let twice = redacted(redacted(d))->Array_0;
            assert(twice =~= out);
        },
        _ => {},
    }
}

/// A header as it is logged: its value is replaced where it is a secret, and where
/// it is no text.
pub open spec fn logged_header(name: Seq<char>, value: Option<Seq<char>>) -> Seq<char> {
    if secret_header(name) {
        "<redacted>"@
    } else {
        match value {
            Some(v) => v,
            None => "<binary>"@,
        }
    }
}

/// The model of a row of headers, some of whose values are no text.
pub open spec fn raw_headers(list: Seq<(String, Option<String>)>) -> Seq<(Seq<char>, Option<Seq<char>>)> {
    list.map_values(|e: (String, Option<String>)| (e.0@, view_opt(e.1)))
}

/// The headers as they are logged. Names are never replaced.
pub fn redact_headers(headers: &Vec<(String, Option<String>)>) -> (r: Vec<(String, String)>)
    ensures
        r@.map_values(|e: (String, String)| (e.0@, e.1@)) == raw_headers(headers@).map_values(
            |e: (Seq<char>, Option<Seq<char>>)| (e.0, logged_header(e.0, e.1)),
        ),
{
    let ghost goal = raw_headers(headers@).map_values(
        |e: (Seq<char>, Option<Seq<char>>)| (e.0, logged_header(e.0, e.1)),
    );
    let ghost shown = |e: (String, String)| (e.0@, e.1@);
    let mut out: Vec<(String, String)> = Vec::new();
    assert(out@.map_values(shown) =~= goal.subrange(0, 0));
    let mut i: usize = 0;
    while i < headers.len()
        invariant
            i <= headers.len(),
            shown == (|e: (String, String)| (e.0@, e.1@)),
            goal == raw_headers(headers@).map_values(
                |e: (Seq<char>, Option<Seq<char>>)| (e.0, logged_header(e.0, e.1)),
            ),
            out@.map_values(shown) == goal.subrange(0, i as int),
        decreases headers.len() - i,
    {
        let ghost prev = out@.map_values(shown);
        let name = headers[i].0.clone();
        let value = if is_sensitive_header(name.as_str()) {
            "<redacted>".to_owned()
        } else {
            match &headers[i].1 {
                Some(v) => v.clone(),
                None => "<binary>".to_owned(),
            }
        };
        assert(raw_headers(headers@)[i as int] == (headers@[i as int].0@, view_opt(headers@[i as int].1)));
        assert(goal[i as int] == (name@, value@));
        out.push((name, value));
        assert(out@.map_values(shown) =~= prev.push(goal[i as int]));
        i = i + 1;
        assert(out@.map_values(shown) =~= goal.subrange(0, i as int));
    }
    assert(out@.map_values(shown) =~= goal);
    out
}

/// A text as it is logged: whole up to 300 characters, and else its first 300
/// with a note of how long it was.
pub open spec fn logged_text(s: Seq<char>) -> Seq<char> {
    if s.len() <= 300 {
        s
    } else {
        s.subrange(0, 300) + "... (total "@ + decimal(s.len()) + " chars)"@
    }
}

/// A text as it is logged.
pub fn truncate_body(s: &str) -> (r: String)
    ensures
        r@ == logged_text(s@),
{
    let v = chars_of(s);
    if v.len() <= 300 {
        s.to_owned()
    } else {
        let mut t = text_of(&slice_chars(&v, 0, 300));
        t.append("... (total ");
        t.append(decimal_text(v.len() as u64).as_str());
        t.append(" chars)");
        t
    }
}

// ---- lines ---------------------------------------------------------------

/// `chrono::Local::now()` in the format of the log's time stamps. Nothing is known
/// of its value.
#[verifier::external_body]
fn local_stamp() -> (r: String) {
    chrono::Local::now().format("%Y-%m-%d %H:%M:%S%.3f").to_string()
}

/// `chrono::Local::now()` as the date of today. Nothing is known of its value.
#[verifier::external_body]
fn local_day() -> (r: String) {
    chrono::Local::now().format("%Y-%m-%d").to_string()
}

/// The model of the body of a request.
pub open spec fn body_of(body: Option<&Json>) -> Option<Doc> {
    match body {
        Some(b) => Some(b@),
        None => None,
    }
}

/// The line on a request.
pub open spec fn request_line(
    stamp: Seq<char>,
    client: Option<Seq<char>>,
    method: Seq<char>,
    headers: Seq<(Seq<char>, Option<Seq<char>>)>,
    body: Option<Doc>,
) -> Seq<char> {
    let shown = headers.map_values(
        |e: (Seq<char>, Option<Seq<char>>)| e.0 + ": "@ + logged_header(e.0, e.1),
    );
    "["@ + stamp + "] [REQUEST] client="@ + (match client {
        Some(c) => c,
        None => "-"@,
    }) + " method="@ + method + " headers=["@ + joined(shown, "; "@) + "] body="@ + (match body {
        Some(b) => logged_text(json_written(redacted(b))),
        None => Seq::empty(),
    })
}

/// The line on an event.
pub open spec fn event_line(stamp: Seq<char>, kind: Seq<char>, msg: Seq<char>) -> Seq<char> {
    "["@ + stamp + "] ["@ + kind + "] "@ + msg
}

/// The line on an event, at the time `stamp`.
pub fn format_line_at(stamp: &str, kind: &str, msg: &str) -> (r: String)
    ensures
        r@ == event_line(stamp@, kind@, msg@),
{
    let mut s = "[".to_owned();
    s.append(stamp);
    s.append("] [");
    s.append(kind);
    s.append("] ");
    s.append(msg);
    s
}

/// The line on an event that happened now.
pub fn format_line(kind: &str, msg: &str) -> (r: String)
    ensures
        exists|stamp: Seq<char>| r@ == #[trigger] event_line(stamp, kind@, msg@),
{
    let stamp = local_stamp();
    let r = format_line_at(stamp.as_str(), kind, msg);
    assert(r@ == event_line(stamp@, kind@, msg@));
    r
}

/// The line on a request, at the time `stamp`; none while the log is off.
pub fn log_request_at(
    state: &AppState,
    stamp: &str,
    client_name: Option<&str>,
    method: &str,
    headers: &Vec<(String, Option<String>)>,
    body: Option<&Json>,
) -> (r: Option<String>)
    ensures
        r is Some <==> state@.config.request_logging_enabled,
        r matches Some(line) ==> line@ == request_line(
            stamp@,
            name_of(client_name),
            method@,
            raw_headers(headers@),
            body_of(body),
        ),
{
    if !state.config.request_logging_enabled {
        return None;
    }
    let safe = redact_headers(headers);
    let ghost raw = raw_headers(headers@);
    let ghost goal = raw.map_values(|e: (Seq<char>, Option<Seq<char>>)| e.0 + ": "@ + logged_header(e.0, e.1));
    let ghost pairs = raw.map_values(|e: (Seq<char>, Option<Seq<char>>)| (e.0, logged_header(e.0, e.1)));
    let ghost shown = |e: (String, String)| (e.0@, e.1@);
    let mut lines: Vec<String> = Vec::new();
    assert(texts(lines@) =~= goal.subrange(0, 0));
    assert(safe@.map_values(shown).len() == safe@.len());
    let mut i: usize = 0;
    while i < safe.len()
        invariant
            i <= safe.len(),
            shown == (|e: (String, String)| (e.0@, e.1@)),
            safe@.map_values(shown) == pairs,
            pairs == raw.map_values(|e: (Seq<char>, Option<Seq<char>>)| (e.0, logged_header(e.0, e.1))),
            goal == raw.map_values(|e: (Seq<char>, Option<Seq<char>>)| e.0 + ": "@ + logged_header(e.0, e.1)),
            raw.len() == safe@.len(),
            texts(lines@) == goal.subrange(0, i as int),
        decreases safe.len() - i,
    {
        let ghost prev = texts(lines@);
        assert(pairs[i as int] == (safe@[i as int].0@, safe@[i as int].1@));
        let mut s = safe[i].0.clone();
        s.append(": ");
        s.append(safe[i].1.as_str());
        assert(s@ == goal[i as int]);
        lines.push(s);
        assert(texts(lines@) =~= prev.push(goal[i as int]));
        i = i + 1;
        assert(texts(lines@) =~= goal.subrange(0, i as int));
    }
    assert(texts(lines@) =~= goal);
    let mut out = "[".to_owned();
    out.append(stamp);
    out.append("] [REQUEST] client=");
    out.append(
        match client_name {
            Some(c) => c,
            None => "-",
        },
    );
    out.append(" method=");
    out.append(method);
    out.append(" headers=[");
    out.append(join_texts(&lines, "; ").as_str());
    out.append("] body=");
    match body {
        Some(b) => {
            let clean = redact_body(b);
            out.append(truncate_body(write_json(&clean).as_str()).as_str());
        },
        None => {
            let ghost prev = out@;
            assert(prev + Seq::<char>::empty() =~= prev);
        },
    }
    Some(out)
}

/// The line on a request that came now; none while the log is off.
pub fn log_request(
    state: &AppState,
    client_name: Option<&str>,
    method: &str,
    headers: &Vec<(String, Option<String>)>,
    body: Option<&Json>,
) -> (r: Option<String>)
    ensures
        r is Some <==> state@.config.request_logging_enabled,
        r matches Some(line) ==> exists|stamp: Seq<char>|
            line@ == #[trigger] request_line(
                stamp,
                name_of(client_name),
                method@,
                raw_headers(headers@),
                body_of(body),
            ),
{
    let stamp = local_stamp();
    let ghost goal = request_line(stamp@, name_of(client_name), method@, raw_headers(headers@), body_of(body));
    log_request_at(state, stamp.as_str(), client_name, method, headers, body)
}

/// The line on something that was done; none while the log is off.
pub fn log_event(state: &AppState, msg: &str) -> (r: Option<String>)
    ensures
        r is Some <==> state@.config.request_logging_enabled,
        r matches Some(line) ==> exists|stamp: Seq<char>| line@ == #[trigger] event_line(stamp, "EVENT"@, msg@),
{
    if state.config.request_logging_enabled {
        Some(format_line("EVENT", msg))
    } else {
        None
    }
}

/// The line on something that failed; none while the log is off.
pub fn log_error(state: &AppState, msg: &str) -> (r: Option<String>)
    ensures
        r is Some <==> state@.config.request_logging_enabled,
        r matches Some(line) ==> exists|stamp: Seq<char>| line@ == #[trigger] event_line(stamp, "ERROR"@, msg@),
{
    if state.config.request_logging_enabled {
        Some(format_line("ERROR", msg))
    } else {
        None
    }
}

/// Whatever is logged of a request's headers, no value of a secret header is in it.
pub proof fn logged_headers_hide_secrets(name: Seq<char>, value: Option<Seq<char>>, other: Option<Seq<char>>)
    requires
        secret_header(name),
    ensures
        logged_header(name, value) == logged_header(name, other),
{
}

// ---- files ---------------------------------------------------------------

/// The name of the `n`-th file of a day.
pub open spec fn file_name(day: Seq<char>, n: u32) -> Seq<char> {
    if n <= 1 {
        day + ".log"@
    } else {
        day + "_"@ + decimal(n as nat) + ".log"@
    }
}

/// The name of the `n`-th file of a day.
pub fn num_path(day: &str, n: u32) -> (r: String)
    ensures
        r@ == file_name(day@, n),
{
    let mut s = day.to_owned();
    if n > 1 {
        s.append("_");
        s.append(decimal_text(n as u64).as_str());
    }
    s.append(".log");
    s
}

/// The number of a file among those of a day: 1 for the first, and for a later one
/// the numeral in its name.
pub open spec fn file_number(day: Seq<char>, name: Seq<char>) -> Option<nat> {
    if name == day + ".log"@ {
        Some(1)
    } else {
        let prefix = day + "_"@;
        if occurs_at(name, prefix, 0) && occurs_at(name, ".log"@, name.len() - 4) && prefix.len() + 4
            <= name.len() {
            match numeral_value(name.subrange(prefix.len() as int, name.len() - 4), u32::MAX as nat) {
                Some(n) => if n >= 2 {
                    Some(n)
                } else {
                    None
                },
                None => None,
            }
        } else {
            None
        }
    }
}

/// The number of a file among those of a day.
pub fn number_of(day: &str, name: &str) -> (r: Option<u32>)
    ensures
        r is Some <==> file_number(day@, name@) is Some,
        r matches Some(n) ==> file_number(day@, name@) == Some(n as nat),
{
    let mut first = day.to_owned();
    first.append(".log");
    if same_text(name, first.as_str()) {
        return Some(1);
    }
    let mut prefix = day.to_owned();
    prefix.append("_");
    proof {
        reveal_strlit(".log");
    }
    if !starts_with_text(name, prefix.as_str()) || !ends_with_text(name, ".log") {
        return None;
    }
    let v = chars_of(name);
    let p = chars_of(prefix.as_str());
    let n: usize = v.len();
    if n < 4 || p.len() > n - 4 {
        return None;
    }
    let mid = text_of(&slice_chars(&v, p.len(), n - 4));
    match parse_numeral(mid.as_str(), 0xffff_ffff) {
        Some(k) => if k >= 2 {
            Some(k as u32)
        } else {
            None
        },
        None => None,
    }
}

/// Whether some file of `names` has the number `n` on that day.
pub open spec fn is_number(names: Seq<Seq<char>>, day: Seq<char>, n: nat) -> bool {
    exists|i: int| 0 <= i < names.len() && file_number(day, #[trigger] names[i]) == Some(n)
}

/// The numbers of a day's files, in the order of the directory.
pub fn scan_today_numbers(names: &Vec<String>, day: &str) -> (r: Vec<u32>)
    ensures
        forall|n: u32| r@.contains(n) <==> #[trigger] is_number(texts(names@), day@, n as nat),
{
    let ghost all = texts(names@);
    let mut out: Vec<u32> = Vec::new();
    let mut i: usize = 0;
    while i < names.len()
        invariant
            i <= names.len(),
            all == texts(names@),
            forall|n: u32| #[trigger]
                out@.contains(n) <==> exists|k: int|
                    0 <= k < i && file_number(day@, #[trigger] all[k]) == Some(n as nat),
        decreases names.len() - i,
    {
        let ghost prev = out@;
        assert(all[i as int] == names@[i as int]@);
        let found = number_of(day, names[i].as_str());
        if let Some(n) = found {
            out.push(n);
            assert(out@[out@.len() - 1] == n);
        }
        i = i + 1;
        proof {
            assert forall|n: u32| #[trigger] out@.contains(n) <==> exists|k: int|
                0 <= k < i && file_number(day@, #[trigger] all[k]) == Some(n as nat) by {
                if out@.contains(n) {
                    let j = choose|j: int| 0 <= j < out@.len() && out@[j] == n;
                    if j < prev.len() {
                        assert(prev[j] == n);
                        assert(prev.contains(n));
                    } else {
                        assert(file_number(day@, all[i - 1]) == Some(n as nat));
                    }
                }
                if exists|k: int| 0 <= k < i && file_number(day@, #[trigger] all[k]) == Some(n as nat) {
                    let k = choose|k: int| 0 <= k < i && file_number(day@, #[trigger] all[k]) == Some(n as nat);
                    if k < i - 1 {
                        assert(prev.contains(n));
                        let j = choose|j: int| 0 <= j < prev.len() && prev[j] == n;
                        assert(out@[j] == n);
                    }
                }
            }
        }
    }
    out
}

/// The highest number among a day's files.
pub fn active_number(names: &Vec<String>, day: &str) -> (r: Option<u32>)
    ensures
        is_active(texts(names@), day@, r),
{
    let nums = scan_today_numbers(names, day);
    if nums.len() == 0 {
        return None;
    }
    let mut best: u32 = nums[0];
    let mut i: usize = 1;
    while i < nums.len()
        invariant
            1 <= i <= nums.len(),
            nums@.contains(best),
            forall|k: int| 0 <= k < i ==> nums@[k] <= best,
        decreases nums.len() - i,
    {
        if nums[i] > best {
            best = nums[i];
        }
        i = i + 1;
    }
    Some(best)
}

/// The file that the next line of a day goes to: the one with the highest number,
/// or the one after it where that is full.
pub open spec fn next_file(day: Seq<char>, active: Option<u32>, size: u64) -> Seq<char> {
    match active {
        None => file_name(day, 1),
        Some(n) => if size >= 5_242_880 {
            file_name(day, if n < u32::MAX { (n + 1) as u32 } else { 0 })
        } else {
            file_name(day, n)
        },
    }
}

/// The file that the next line of a day goes to. `size` is the size of the file with
/// the highest number.
pub fn log_file_for(day: &str, active: Option<u32>, size: u64) -> (r: String)
    ensures
        r@ == next_file(day@, active, size),
{
    match active {
        None => num_path(day, 1),
        Some(n) => if size >= MAX_REQUEST_FILE_BYTES {
            num_path(
                day,
                if n < u32::MAX {
                    n + 1
                } else {
                    0
                },
            )
        } else {
            num_path(day, n)
        },
    }
}

/// Whether `active` is the highest number among a day's files.
pub open spec fn is_active(names: Seq<Seq<char>>, day: Seq<char>, active: Option<u32>) -> bool {
    match active {
        Some(n) => is_number(names, day, n as nat) && forall|k: u32| #[trigger]
            is_number(names, day, k as nat) ==> k <= n,
        None => forall|k: u32| !(#[trigger] is_number(names, day, k as nat)),
    }
}

/// The date of today as it stands in the names of files, and the highest number
/// among today's files.
pub fn active_today(names: &Vec<String>) -> (r: (String, Option<u32>))
    ensures
        is_active(texts(names@), r.0@, r.1),
{
    let day = local_day();
    let active = active_number(names, day.as_str());
    (day, active)
}

/// A file of the log, and when it was last written to.
#[derive(Debug, PartialEq, Eq)]
pub struct LogFile {
    pub name: String,
    pub modified: u64,
}

pub struct FileModel {
    pub name: Seq<char>,
    pub modified: u64,
}

impl View for LogFile {
    type V = FileModel;

    open spec fn view(&self) -> FileModel {
        FileModel { name: self.name@, modified: self.modified }
    }
}

impl Replica for LogFile {
    fn replica(&self) -> (r: Self) {
        LogFile { name: self.name.clone(), modified: self.modified }
    }
}

/// `a` is older than `b`: written to earlier, or at the same time and earlier by
/// name.
pub open spec fn older(a: FileModel, b: FileModel) -> bool {
    a.modified < b.modified || (a.modified == b.modified && before(a.name, b.name))
}

fn is_older(a: &LogFile, b: &LogFile) -> (r: bool)
    ensures
        r == older(a@, b@),
{
    a.modified < b.modified || (a.modified == b.modified && text_before(a.name.as_str(), b.name.as_str()))
}

/// Whether a file belongs to the log, by its name.
pub open spec fn is_log_name(name: Seq<char>) -> bool {
    name.len() > 4 && occurs_at(name, ".log"@, name.len() - 4)
}

/// Whether a file belongs to the log, by its name.
pub fn is_log_file(name: &str) -> (r: bool)
    ensures
        r == is_log_name(name@),
{
    proof {
        reveal_strlit(".log");
    }
    name.unicode_len() > 4 && ends_with_text(name, ".log")
}

/// Whether `gone` is what has to be deleted of `files` so that 20 are left: the
/// oldest, as many as there are too many.
pub open spec fn retention(files: Seq<FileModel>, kept: Seq<FileModel>, gone: Seq<FileModel>) -> bool {
    &&& kept.to_multiset().add(gone.to_multiset()) =~= files.to_multiset()
    &&& gone.len() == (if files.len() > 20 {
        (files.len() - 20) as nat
    } else {
        0
    })
    &&& forall|i: int, j: int|
        0 <= i < gone.len() && 0 <= j < kept.len() ==> !older(#[trigger] kept[j], #[trigger] gone[i])
}

fn oldest_of(files: &Vec<LogFile>) -> (r: usize)
    requires
        files@.len() > 0,
    ensures
        r < files@.len(),
        forall|k: int| 0 <= k < files@.len() ==> !older((#[trigger] views(files@)[k]), views(files@)[r as int]),
{
    let mut best: usize = 0;
    let mut i: usize = 1;
    proof {
        before_irreflexive(files@[0].name@);
    }
    while i < files.len()
        invariant
            1 <= i <= files.len(),
            best < i,
            forall|k: int| 0 <= k < i ==> !older((#[trigger] views(files@)[k]), views(files@)[best as int]),
        decreases files.len() - i,
    {
        assert(views(files@)[i as int] == files@[i as int]@);
        assert(views(files@)[best as int] == files@[best as int]@);
        if is_older(&files[i], &files[best]) {
            proof {
                let x = files@[i as int]@;
                let y = files@[best as int]@;
                assert forall|k: int| 0 <= k < i + 1 implies !older((#[trigger] views(files@)[k]), x) by {
                    let z = views(files@)[k];
                    if k == i {
                        before_irreflexive(x.name);
                    } else if older(z, x) {
                        lemma_older_transitive(z, x, y);
                        assert(!older(z, y));
                    }
                }
            }
            best = i;
        }
        i = i + 1;
    }
    best
}

proof fn lemma_older_transitive(a: FileModel, b: FileModel, c: FileModel)
    requires
        older(a, b),
        older(b, c),
    ensures
        older(a, c),
{
    if a.modified == b.modified && b.modified == c.modified {
        before_transitive(a.name, b.name, c.name);
    }
}

/// The files that have to be deleted so that 20 are left.
pub fn enforce_retention(files: &Vec<LogFile>) -> (r: Vec<LogFile>)
    ensures
        exists|kept: Seq<FileModel>| #[trigger] retention(views(files@), kept, views(r@)),
{
    let ghost all = views(files@);
    let mut left = crate::name_map::replicas(files);
    let mut gone: Vec<LogFile> = Vec::new();
    assert(views(gone@) =~= Seq::<FileModel>::empty());
    assert(views(left@).len() == left@.len());
    assert(all.len() == files@.len());
    proof {
        assert(Seq::<FileModel>::empty().to_multiset() =~= vstd::multiset::Multiset::<FileModel>::empty()) by {
            all.to_multiset_ensures();
            Seq::<FileModel>::empty().to_multiset_ensures();
            assert(Seq::<FileModel>::empty().to_multiset().len() == 0);
        }
    }
    while left.len() > MAX_REQUEST_FILES
        invariant
            all.len() == left@.len() + gone@.len(),
            all.len() > 20 ==> left@.len() >= 20,
            all.len() <= 20 ==> gone@.len() == 0,
            views(left@).to_multiset().add(views(gone@).to_multiset()) =~= all.to_multiset(),
            forall|i: int, j: int|
                0 <= i < gone@.len() && 0 <= j < left@.len() ==> !older(
                    #[trigger] views(left@)[j],
                    #[trigger] views(gone@)[i],
                ),
        decreases left@.len(),
    {
        let ghost left_before = views(left@);
        let ghost gone_before = views(gone@);
        let k: usize = oldest_of(&left);
        let f = left.remove(k);
        let ghost x = f@;
        assert(left_before[k as int] == x);
        gone.push(f);
        proof {
            assert(views(left@) =~= left_before.remove(k as int));
            assert(views(gone@) =~= gone_before.push(x));
            left_before.to_multiset_ensures();
            gone_before.to_multiset_ensures();
            assert(left_before.contains(x));
            assert(left_before.to_multiset().count(x) > 0);
            assert forall|i: int, j: int| 0 <= i < gone@.len() && 0 <= j < left@.len() implies !older(
                #[trigger] views(left@)[j],
                #[trigger] views(gone@)[i],
            ) by {
                let j0 = if j < k { j } else { j + 1 };
                assert(views(left@)[j] == left_before[j0]);
                if i < gone_before.len() {
                    assert(views(gone@)[i] == gone_before[i]);
                }
            }
        }
    }
    assert(retention(all, views(left@), views(gone@)));
    gone
}

proof fn lemma_lowered_holds(a: Seq<char>, w: Seq<char>, b: Seq<char>)
    ensures
        holds(lowered(a + w + b), lowered(w)),
{
    let whole = lowered(a + w + b);
    assert(whole.subrange(a.len() as int, (a.len() + w.len()) as int) =~= lowered(w));
    assert(occurs_at(whole, lowered(w), a.len() as int));
}

/// A name that has one of the words for a secret in it, anywhere and in whatever case,
/// is taken for that of a secret.
pub proof fn secret_words_are_recognized(a: Seq<char>, w: Seq<char>, b: Seq<char>)
    ensures
        lowered(w) == "token"@ || lowered(w) == "key"@ || lowered(w) == "secret"@ || lowered(w) == "auth"@ || lowered(w)
            == "password"@ ==> secret_key(a + w + b) && secret_header(a + w + b),
        lowered(w) == "cookie"@ || lowered(w) == "bearer"@ ==> secret_key(a + w + b),
        lowered(w) == "cookie"@ || lowered(w) == "set-cookie"@ || lowered(w) == "authorization"@ ==> secret_header(w),
{
    lemma_lowered_holds(a, w, b);
}

/// What is logged of a body has the shape of the body: the same members in the same
/// order, and every value that stands under no secret name is what it was.
pub proof fn redaction_keeps_the_rest(d: Doc, i: int)
    ensures
        d matches Doc::Object(members) ==> (redacted(d) matches Doc::Object(shown) && shown.len() == members.len() && (0
            <= i < members.len() ==> shown[i].key == members[i].key && (secret_key(members[i].key) ==> shown[i].value
            == Doc::Text("<redacted>"@)) && (!secret_key(members[i].key) ==> shown[i].value == redacted(
            members[i].value,
        )))),
        d matches Doc::Array(items) ==> (redacted(d) matches Doc::Array(shown) && shown.len() == items.len() && (0 <= i
            < items.len() ==> shown[i] == redacted(items[i]))),
        !(d is Object) && !(d is Array) ==> redacted(d) == d,
{
}

/// Nothing of a secret reaches the log: a line is the same whatever stands under a
/// secret name in the body, and whatever the value of a secret header is. It names the
/// client and the method.
pub proof fn lines_hide_secrets(
    stamp: Seq<char>,
    client: Seq<char>,
    method: Seq<char>,
    headers: Seq<(Seq<char>, Option<Seq<char>>)>,
    body: Doc,
    other: Doc,
)
    ensures
        redacted(body) == redacted(other) ==> request_line(stamp, Some(client), method, headers, Some(body))
            == request_line(stamp, Some(client), method, headers, Some(other)),
        holds(request_line(stamp, Some(client), method, headers, Some(body)), client),
        holds(request_line(stamp, Some(client), method, headers, Some(body)), method),
        json_written(redacted(body)).len() <= 300 ==> holds(
            request_line(stamp, Some(client), method, headers, Some(body)),
            json_written(redacted(body)),
        ),
{
    let line = request_line(stamp, Some(client), method, headers, Some(body));
    let shown = headers.map_values(|e: (Seq<char>, Option<Seq<char>>)| e.0 + ": "@ + logged_header(e.0, e.1));
    let head = "["@ + stamp + "] [REQUEST] client="@;
    let a = head.len() as int;
    assert(line.subrange(a, a + client.len()) =~= client);
    assert(occurs_at(line, client, a));
    let b = (head + client + " method="@).len() as int;
    assert(line.subrange(b, b + method.len()) =~= method);
    assert(occurs_at(line, method, b));
    let text = json_written(redacted(body));
    if text.len() <= 300 {
        let c = (head + client + " method="@ + method + " headers=["@ + joined(shown, "; "@) + "] body="@).len() as int;
        assert(line.subrange(c, c + text.len()) =~= text);
        assert(occurs_at(line, text, c));
    }
}

/// A header that is no secret is logged as it is, and a secret one never.
pub proof fn plain_headers_are_logged(name: Seq<char>, value: Seq<char>)
    ensures
        !secret_header(name) ==> logged_header(name, Some(value)) == value,
        secret_header(name) ==> logged_header(name, Some(value)) == "<redacted>"@,
        !secret_header(name) ==> logged_header(name, None) == "<binary>"@,
{
}

/// A long text is logged by its beginning and its length, and a short one as it is.
pub proof fn long_texts_are_cut(s: Seq<char>)
    ensures
        s.len() <= 300 ==> logged_text(s) == s,
        s.len() > 300 ==> logged_text(s).subrange(0, 300) == s.subrange(0, 300) && holds(
            logged_text(s).subrange(300, logged_text(s).len() as int),
            decimal(s.len()),
        ),
{
    if s.len() > 300 {
        let t = logged_text(s);
        assert(t.subrange(0, 300) =~= s.subrange(0, 300));
        let tail = t.subrange(300, t.len() as int);
        assert(tail =~= "... (total "@ + decimal(s.len()) + " chars)"@);
        let k = "... (total "@.len() as int;
        assert(tail.subrange(k, k + decimal(s.len()).len()) =~= decimal(s.len()));
        assert(occurs_at(tail, decimal(s.len()), k));
    }
}

/// A line says when, what kind it is, and its message.
pub proof fn event_lines_say_what_happened(stamp: Seq<char>, kind: Seq<char>, msg: Seq<char>)
    ensures
        holds(event_line(stamp, kind, msg), stamp),
        holds(event_line(stamp, kind, msg), kind),
        holds(event_line(stamp, kind, msg), msg),
{
    let line = event_line(stamp, kind, msg);
    let a = "["@.len() as int;
    assert(line.subrange(a, a + stamp.len()) =~= stamp);
    assert(occurs_at(line, stamp, a));
    let b = ("["@ + stamp + "] ["@).len() as int;
    assert(line.subrange(b, b + kind.len()) =~= kind);
    assert(occurs_at(line, kind, b));
    let c = ("["@ + stamp + "] ["@ + kind + "] "@).len() as int;
    assert(line.subrange(c, line.len() as int) =~= msg);
    assert(occurs_at(line, msg, c));
}

/// The number of a log file is read back from its name.
pub proof fn file_numbers_read_back(day: Seq<char>, n: u32)
    ensures
        n <= 1 ==> file_number(day, file_name(day, n)) == Some(1nat),
        n >= 2 ==> file_number(day, file_name(day, n)) == Some(n as nat),
{
    if n >= 2 {
        reveal_strlit(".log");
        reveal_strlit("_");
        let name = file_name(day, n);
        let prefix = day + "_"@;
        decimal_reads_back(n as nat, u32::MAX as nat);
        assert(name.subrange(0, prefix.len() as int) =~= prefix);
        assert(name.subrange(name.len() - 4, name.len() as int) =~= ".log"@);
        assert(name.subrange(prefix.len() as int, name.len() - 4) =~= decimal(n as nat));
        if name == day + ".log"@ {
            assert(name.len() == day.len() + 4);
        }
    }
}

/// Logging goes on in the file of the day with the highest number, and in the next one
/// once that is full; the first line of a day opens its first file.
pub proof fn full_files_are_followed_by_the_next(day: Seq<char>, n: u32, size: u64)
    requires
        2 <= n < u32::MAX,
    ensures
        file_number(day, next_file(day, None, size)) == Some(1nat),
        size < 5_242_880 ==> file_number(day, next_file(day, Some(n), size)) == Some(n as nat),
        size >= 5_242_880 ==> file_number(day, next_file(day, Some(n), size)) == Some((n + 1) as nat),
        size >= 5_242_880 ==> file_number(day, next_file(day, Some(1), size)) == Some(2nat),
        size < 5_242_880 ==> file_number(day, next_file(day, Some(1), size)) == Some(1nat),
{
    file_numbers_read_back(day, 1);
    file_numbers_read_back(day, 2);
    file_numbers_read_back(day, n);
    file_numbers_read_back(day, (n + 1) as u32);
}

/// The newest log files are kept, twenty at most, and only older ones go.
pub proof fn the_newest_files_are_kept(files: Seq<FileModel>, kept: Seq<FileModel>, gone: Seq<FileModel>, i: int, j: int)
    requires
        retention(files, kept, gone),
    ensures
        kept.len() + gone.len() == files.len(),
        kept.len() <= 20,
        files.len() <= 20 ==> gone.len() == 0,
        0 <= i < gone.len() ==> files.contains(gone[i]),
        0 <= j < kept.len() ==> files.contains(kept[j]),
        0 <= i < gone.len() && 0 <= j < kept.len() ==> gone[i].modified <= kept[j].modified,
{
    files.to_multiset_ensures();
    kept.to_multiset_ensures();
    gone.to_multiset_ensures();
    assert(kept.to_multiset().add(gone.to_multiset()).len() == files.to_multiset().len());
    if 0 <= i < gone.len() {
        assert(gone.to_multiset().count(gone[i]) > 0) by {
            assert(gone.contains(gone[i]));
        }
        assert(files.to_multiset().count(gone[i]) > 0);
    }
    if 0 <= j < kept.len() {
        assert(kept.to_multiset().count(kept[j]) > 0) by {
            assert(kept.contains(kept[j]));
        }
        assert(files.to_multiset().count(kept[j]) > 0);
    }
    if 0 <= i < gone.len() && 0 <= j < kept.len() {
        assert(!older(kept[j], gone[i]));
    }
}

/// Only files of the day have a number, and only names that end as log files do.
pub proof fn only_files_of_the_day_have_a_number(day: Seq<char>, name: Seq<char>)
    ensures
        file_number(day, name) is Some ==> occurs_at(name, day, 0) && occurs_at(name, ".log"@, name.len() - 4),
        file_number(day, name) == Some(1nat) <==> name == day + ".log"@,
{
    reveal_strlit(".log");
    if file_number(day, name) is Some {
        if name == day + ".log"@ {
            assert(name.subrange(0, day.len() as int) =~= day);
            assert(name.subrange(name.len() - 4, name.len() as int) =~= ".log"@);
        } else {
            let prefix = day + "_"@;
            assert(name.subrange(0, prefix.len() as int) == prefix);
            assert(name.subrange(0, day.len() as int) =~= prefix.subrange(0, day.len() as int));
            assert(prefix.subrange(0, day.len() as int) =~= day);
        }
    }
}

/// Log files are those whose name ends in `.log` behind something.
pub proof fn log_files_end_in_log(stem: Seq<char>, name: Seq<char>)
    ensures
        stem.len() > 0 ==> is_log_name(stem + ".log"@),
        is_log_name(name) ==> exists|s: Seq<char>| s.len() > 0 && name == #[trigger] (s + ".log"@),
{
    reveal_strlit(".log");
    let full = stem + ".log"@;
    assert(full.subrange(full.len() - 4, full.len() as int) =~= ".log"@);
    if is_log_name(name) {
        let s = name.subrange(0, name.len() - 4);
        assert(name =~= s + ".log"@);
    }
}

/// Of two log files the one that was written to first is the older one; of two of the
/// same moment their names decide.
pub proof fn age_goes_by_the_last_write(a: FileModel, b: FileModel)
    ensures
        a.modified < b.modified ==> older(a, b) && !older(b, a),
        a.modified == b.modified && a.name != b.name ==> (older(a, b) <==> !older(b, a)),
        !older(a, a),
{
    before_irreflexive(a.name);
    crate::name_map::before_total(a.name, b.name);
    if before(a.name, b.name) && before(b.name, a.name) {
        before_transitive(a.name, b.name, a.name);
    }
}

} // verus!
