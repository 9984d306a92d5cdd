//! The secrets in a configuration: the environment of a stdio jack and the
//! headers of a remote one. Whatever is written to disk is protected first;
//! nothing is protected twice.

use vstd::prelude::*;

use super::schema::{ConfigModel, JackConfig, JackModel, JackTransport, PatchbayConfig, TransportModel};
use crate::name_map::{views, NameMap, Replica};
use crate::utils::dpapi::{decrypt_field, encrypt_field, is_encrypted, is_sealed, opened, sealed};

verus! {

/// Whether a value still has to be protected.
pub open spec fn is_plain_secret(value: Seq<char>) -> bool {
    value.len() > 0 && !is_sealed(value)
}

/// A value as it is stored, where `bytes` is what protecting it gave. What
/// could not be protected is kept as it is, so that nothing is lost.
pub open spec fn stored(value: Seq<char>, bytes: Option<Seq<u8>>) -> Seq<char> {
    if is_plain_secret(value) && bytes is Some {
        sealed(bytes->0)
    } else {
        value
    }
}

/// A map of secrets as it is stored.
pub open spec fn stored_map(
    map: Map<Seq<char>, Seq<char>>,
    bytes: Map<Seq<char>, Seq<u8>>,
) -> Map<Seq<char>, Seq<char>> {
    map.map_entries(|k: Seq<char>, v: Seq<char>| stored(v, bytes.get(k)))
}

/// A map of secrets as it is used.
pub open spec fn opened_map(
    map: Map<Seq<char>, Seq<char>>,
    bytes: Map<Seq<char>, Seq<u8>>,
) -> Map<Seq<char>, Seq<char>> {
    map.map_entries(|k: Seq<char>, v: Seq<char>| opened(v, bytes.get(k)))
}

/// The secrets of a transport.
pub open spec fn secrets_of(t: TransportModel) -> Map<Seq<char>, Seq<char>> {
    match t {
        TransportModel::Stdio { env, .. } => env,
        TransportModel::StreamableHttp { headers, .. } => headers,
    }
}

/// A transport with other secrets.
pub open spec fn with_secrets(t: TransportModel, map: Map<Seq<char>, Seq<char>>) -> TransportModel {
    match t {
        TransportModel::Stdio { command, args, .. } => TransportModel::Stdio { command, args, env: map },
        TransportModel::StreamableHttp { url, .. } => TransportModel::StreamableHttp { url, headers: map },
    }
}

/// A jack as it is stored.
pub open spec fn stored_jack(j: JackModel, bytes: Map<Seq<char>, Seq<u8>>) -> JackModel {
    JackModel { transport: with_secrets(j.transport, stored_map(secrets_of(j.transport), bytes)), ..j }
}

/// A configuration as it is stored: `bytes` says for each jack what protecting
/// its secrets gave.
pub open spec fn stored_config(c: ConfigModel, bytes: Seq<Map<Seq<char>, Seq<u8>>>) -> ConfigModel {
    ConfigModel { jacks: Seq::new(c.jacks.len(), |i: int| stored_jack(c.jacks[i], bytes[i])), ..c }
}

/// A copy of the bytes, where there are any.
fn copied_bytes(o: Option<&Vec<u8>>) -> (r: Option<Vec<u8>>)
    ensures
        r is Some <==> o is Some,
        r matches Some(b) ==> b@ == o->0@,
{
    match o {
        Some(b) => {
            let mut out: Vec<u8> = Vec::new();
            let mut i: usize = 0;
            while i < b.len()
                invariant
                    i <= b.len(),
                    out@ == b@.subrange(0, i as int),
                decreases b.len() - i,
            {
                out.push(b[i]);
                i = i + 1;
                assert(out@ =~= b@.subrange(0, i as int));
            }
            assert(out@ =~= b@);
            Some(out)
        },
        None => None,
    }
}

/// The values of a map that still have to be protected, by name.
pub fn plain_secrets(map: &NameMap<String>) -> (r: NameMap<String>)
    ensures
        r@ == map@.restrict(map@.dom().filter(|k: Seq<char>| is_plain_secret(map@[k]))),
{
    let ghost goal = map@.restrict(map@.dom().filter(|k: Seq<char>| is_plain_secret(map@[k])));
    map.facts();
    let ghost pairs = map.pairs();
    let n: usize = map.len();
    let mut out: NameMap<String> = NameMap::new();
    let mut i: usize = 0;
    while i < n
        invariant
            i <= n,
            n == pairs.len(),
            pairs == map.pairs(),
            goal == map@.restrict(map@.dom().filter(|k: Seq<char>| is_plain_secret(map@[k]))),
            forall|k: int|
                0 <= k < pairs.len() ==> map@.contains_key((#[trigger] pairs[k]).0) && map@[pairs[k].0]
                    == pairs[k].1,
            forall|k: int|
                0 <= k < i && is_plain_secret((#[trigger] pairs[k]).1) ==> out@.contains_key(pairs[k].0),
            forall|x: Seq<char>| #[trigger]
                out@.contains_key(x) ==> goal.contains_key(x) && out@[x] == goal[x],
        decreases n - i,
    {
        let key = map.key_at(i);
        let value = map.value_at(i);
        assert(pairs[i as int].0 == key@ && pairs[i as int].1 == value@);
        if !value.as_str().is_empty() && !is_encrypted(value.as_str()) {
            out = out.put(key.clone(), value.clone());
        }
        i = i + 1;
    }
    proof {
        assert forall|x: Seq<char>| goal.contains_key(x) implies out@.contains_key(x) by {
            let k = choose|k: int| 0 <= k < pairs.len() && (#[trigger] pairs[k]).0 == x;
            assert(is_plain_secret(pairs[k].1));
        }
        assert(out@ =~= goal);
    }
    out
}

/// A map of secrets as it is stored.
pub fn encrypt_map(map: &NameMap<String>, protected: &NameMap<Vec<u8>>) -> (r: NameMap<String>)
    ensures
        r@ == stored_map(map@, protected@),
{
    let ghost goal = stored_map(map@, protected@);
    map.facts();
    let ghost pairs = map.pairs();
    let n: usize = map.len();
    let mut out: NameMap<String> = NameMap::new();
    let mut i: usize = 0;
    while i < n
        invariant
            i <= n,
            n == pairs.len(),
            pairs == map.pairs(),
            goal == stored_map(map@, protected@),
            forall|k: int|
                0 <= k < pairs.len() ==> map@.contains_key((#[trigger] pairs[k]).0) && map@[pairs[k].0]
                    == pairs[k].1,
            forall|k: int| 0 <= k < i ==> out@.contains_key((#[trigger] pairs[k]).0),
            forall|x: Seq<char>| #[trigger]
                out@.contains_key(x) ==> goal.contains_key(x) && out@[x] == goal[x],
        decreases n - i,
    {
        let key = map.key_at(i);
        let value = map.value_at(i);
        assert(pairs[i as int].0 == key@ && pairs[i as int].1 == value@);
        let mut next = value.clone();
        if !value.as_str().is_empty() && !is_encrypted(value.as_str()) {
            if let Some(bytes) = copied_bytes(protected.get(key.as_str())) {
                if let Ok(t) = encrypt_field(value.as_str(), Ok(bytes)) {
                    next = t;
                }
            }
        }
        assert(next@ == goal[key@]);
        out = out.put(key.clone(), next);
        i = i + 1;
    }
    proof {
        assert forall|x: Seq<char>| goal.contains_key(x) implies out@.contains_key(x) by {
            let k = choose|k: int| 0 <= k < pairs.len() && (#[trigger] pairs[k]).0 == x;
            assert(out@.contains_key(pairs[k].0));
        }
        assert(out@ =~= goal);
    }
    out
}

fn decrypt_map(map: &NameMap<String>, unprotected: &NameMap<Vec<u8>>) -> (r: NameMap<String>)
    ensures
        r@ == opened_map(map@, unprotected@),
{
    let ghost goal = opened_map(map@, unprotected@);
    map.facts();
    let ghost pairs = map.pairs();
    let n: usize = map.len();
    let mut out: NameMap<String> = NameMap::new();
    let mut i: usize = 0;
    while i < n
        invariant
            i <= n,
            n == pairs.len(),
            pairs == map.pairs(),
            goal == opened_map(map@, unprotected@),
            forall|k: int|
                0 <= k < pairs.len() ==> map@.contains_key((#[trigger] pairs[k]).0) && map@[pairs[k].0]
                    == pairs[k].1,
            forall|k: int| 0 <= k < i ==> out@.contains_key((#[trigger] pairs[k]).0),
            forall|x: Seq<char>| #[trigger]
                out@.contains_key(x) ==> goal.contains_key(x) && out@[x] == goal[x],
        decreases n - i,
    {
        let key = map.key_at(i);
        let value = map.value_at(i);
        assert(pairs[i as int].0 == key@ && pairs[i as int].1 == value@);
        let bytes = copied_bytes(unprotected.get(key.as_str()));
        let next = decrypt_field(value.as_str(), bytes);
        assert(next@ == goal[key@]);
        out = out.put(key.clone(), next);
        i = i + 1;
    }
    proof {
        assert forall|x: Seq<char>| goal.contains_key(x) implies out@.contains_key(x) by {
            let k = choose|k: int| 0 <= k < pairs.len() && (#[trigger] pairs[k]).0 == x;
            assert(out@.contains_key(pairs[k].0));
        }
        assert(out@ =~= goal);
    }
    out
}

/// The secrets of a jack that still have to be protected, by name.
pub fn jack_plain_secrets(jack: &JackConfig) -> (r: NameMap<String>)
    ensures
        r@ == secrets_of(jack@.transport).restrict(
            secrets_of(jack@.transport).dom().filter(
                |k: Seq<char>| is_plain_secret(secrets_of(jack@.transport)[k]),
            ),
        ),
{
    match &jack.transport {
        JackTransport::Stdio { env, .. } => plain_secrets(env),
        JackTransport::StreamableHttp { headers, .. } => plain_secrets(headers),
    }
}

/// Protect the secrets of one jack. `protected` is what protecting them gave.
pub fn encrypt_jack_secrets(jack: &mut JackConfig, protected: &NameMap<Vec<u8>>)
    ensures
        final(jack)@ == stored_jack(old(jack)@, protected@),
{
    let transport = match &jack.transport {
        JackTransport::Stdio { command, args, env } => JackTransport::Stdio {
            command: command.clone(),
            args: crate::name_map::replicas(args),
            env: encrypt_map(env, protected),
        },
        JackTransport::StreamableHttp { url, headers } => JackTransport::StreamableHttp {
            url: url.clone(),
            headers: encrypt_map(headers, protected),
        },
    };
    jack.transport = transport;
}

/// Protect every secret of a configuration. `protected` is, jack by jack, what
/// protecting them gave.
pub fn encrypt_config_secrets(cfg: &mut PatchbayConfig, protected: &Vec<NameMap<Vec<u8>>>)
    requires
        protected@.len() == old(cfg).jacks@.len(),
    ensures
        final(cfg)@ == stored_config(old(cfg)@, views(protected@)),
{
    let ghost c = cfg@;
    let ghost goal = stored_config(c, views(protected@)).jacks;
    let mut out: Vec<JackConfig> = Vec::new();
    assert(views(out@) =~= goal.subrange(0, 0));
    let mut i: usize = 0;
    while i < cfg.jacks.len()
        invariant
            i <= cfg.jacks.len(),
            cfg@ == c,
            cfg.jacks@.len() == protected@.len(),
            goal == stored_config(c, views(protected@)).jacks,
            views(out@) == goal.subrange(0, i as int),
        decreases cfg.jacks.len() - i,
    {
        let ghost prev = views(out@);
        let mut j = cfg.jacks[i].replica();
        assert(c.jacks[i as int] == j@);
        encrypt_jack_secrets(&mut j, &protected[i]);
        out.push(j);
        assert(views(out@) =~= prev.push(goal[i as int]));
        i = i + 1;
        assert(views(out@) =~= goal.subrange(0, i as int));
    }
    assert(views(out@) =~= goal);
    cfg.jacks = out;
}

/// The environment of a stdio jack as it is used; a remote jack has none.
pub fn decrypted_env(jack: &JackConfig, unprotected: &NameMap<Vec<u8>>) -> (r: NameMap<String>)
    ensures
        r@ == (match jack@.transport {
            TransportModel::Stdio { env, .. } => opened_map(env, unprotected@),
            TransportModel::StreamableHttp { .. } => Map::empty(),
        }),
{
    match &jack.transport {
        JackTransport::Stdio { env, .. } => decrypt_map(env, unprotected),
        JackTransport::StreamableHttp { .. } => NameMap::new(),
    }
}

/// The headers of a remote jack as they are used; a stdio jack has none.
pub fn decrypted_headers(jack: &JackConfig, unprotected: &NameMap<Vec<u8>>) -> (r: NameMap<String>)
    ensures
        r@ == (match jack@.transport {
            TransportModel::StreamableHttp { headers, .. } => opened_map(headers, unprotected@),
            TransportModel::Stdio { .. } => Map::empty(),
        }),
{
    match &jack.transport {
        JackTransport::StreamableHttp { headers, .. } => decrypt_map(headers, unprotected),
        JackTransport::Stdio { .. } => NameMap::new(),
    }
}

/// Once every secret could be protected, no plain one is left on disk.
pub proof fn stored_secrets_are_sealed(map: Map<Seq<char>, Seq<char>>, bytes: Map<Seq<char>, Seq<u8>>, k: Seq<char>)
    requires
        map.contains_key(k),
        is_plain_secret(map[k]) ==> bytes.contains_key(k),
    ensures
        stored_map(map, bytes).contains_key(k),
        !is_plain_secret(stored_map(map, bytes)[k]),
{
    let v = stored_map(map, bytes)[k];
    if is_plain_secret(map[k]) {
        assert(v.subrange(0, "dpapi:"@.len() as int) =~= "dpapi:"@);
    }
}

/// Nothing is protected twice: what protecting left protected, or empty, stays
/// as it is, whatever a second round of protecting would give.
pub proof fn storing_is_final(
    map: Map<Seq<char>, Seq<char>>,
    bytes: Map<Seq<char>, Seq<u8>>,
    again: Map<Seq<char>, Seq<u8>>,
)
    requires
        forall|k: Seq<char>| #[trigger] map.contains_key(k) && is_plain_secret(map[k]) ==> bytes.contains_key(k),
    ensures
        stored_map(stored_map(map, bytes), again) == stored_map(map, bytes),
{
    let once = stored_map(map, bytes);
    let twice = stored_map(once, again);
    assert forall|k: Seq<char>| once.contains_key(k) implies twice[k] == once[k] by {
        assert(map.contains_key(k));
        stored_secrets_are_sealed(map, bytes, k);
    }
    assert(twice =~= once);
}

/// Protecting touches nothing but the secrets.
pub proof fn storing_keeps_the_rest(c: ConfigModel, bytes: Seq<Map<Seq<char>, Seq<u8>>>, i: int)
    requires
        0 <= i < c.jacks.len(),
    ensures
        stored_config(c, bytes) == (ConfigModel { jacks: stored_config(c, bytes).jacks, ..c }),
        stored_config(c, bytes).jacks.len() == c.jacks.len(),
        stored_config(c, bytes).jacks[i].name == c.jacks[i].name,
        stored_config(c, bytes).jacks[i].patched == c.jacks[i].patched,
        secrets_of(stored_config(c, bytes).jacks[i].transport).dom() =~= secrets_of(c.jacks[i].transport).dom(),
{
}

/// What is stored of a secret: an empty one, and one that is protected already, as it
/// is; any other under the mark of protected values, with nothing of it in plain
/// text but what protecting gave. Where protecting failed it is kept as it is.
pub proof fn secrets_are_stored_protected(value: Seq<char>, bytes: Seq<u8>)
    ensures
        value.len() == 0 ==> stored(value, Some(bytes)) == value,
        crate::text::occurs_at(value, "dpapi:"@, 0) ==> stored(value, Some(bytes)) == value,
        value.len() > 0 && !crate::text::occurs_at(value, "dpapi:"@, 0) ==> stored(value, Some(bytes)) == "dpapi:"@
            + crate::utils::dpapi::base64_text(bytes),
        stored(value, None) == value,
{
}

/// Every secret of a configuration is stored under its own name, in its own jack, as
/// what protecting it gave.
pub proof fn each_secret_is_stored_in_place(
    c: ConfigModel,
    bytes: Seq<Map<Seq<char>, Seq<u8>>>,
    i: int,
    k: Seq<char>,
)
    requires
        0 <= i < c.jacks.len(),
    ensures
        ({
            let w = stored_config(c, bytes).jacks[i];
            &&& c.jacks[i].transport matches TransportModel::Stdio { env, .. } ==> (w.transport matches
                TransportModel::Stdio { env: env2, .. } && env2.contains_key(k) == env.contains_key(k) && (
            env.contains_key(k) ==> env2[k] == stored(env[k], bytes[i].get(k))))
            &&& c.jacks[i].transport matches TransportModel::StreamableHttp { headers, .. } ==> (w.transport matches
                TransportModel::StreamableHttp { headers: headers2, .. } && headers2.contains_key(k)
                == headers.contains_key(k) && (headers.contains_key(k) ==> headers2[k] == stored(
                headers[k],
                bytes[i].get(k),
            )))
        }),
{
}

/// A secret comes back as it was: what was stored of a plain secret opens to it, where
/// unprotecting gives back what was protected, and plain text that was never protected
/// is used as it stands. What cannot be opened is empty, and never the stored text.
pub proof fn stored_secrets_open_again(
    map: Map<Seq<char>, Seq<char>>,
    bytes: Map<Seq<char>, Seq<u8>>,
    back: Map<Seq<char>, Seq<u8>>,
    k: Seq<char>,
)
    requires
        map.contains_key(k),
        map[k].len() > 0,
        !crate::text::occurs_at(map[k], "dpapi:"@, 0),
    ensures
        bytes.contains_key(k) && crate::utils::dpapi::base64_bytes(crate::utils::dpapi::base64_text(bytes[k])) == Some(
            bytes[k],
        ) && back.get(k) == Some(vstd::utf8::encode_utf8(map[k])) ==> opened_map(stored_map(map, bytes), back)[k]
            == map[k],
        !bytes.contains_key(k) ==> opened_map(stored_map(map, bytes), back)[k] == map[k],
        bytes.contains_key(k) && !back.contains_key(k) ==> opened_map(stored_map(map, bytes), back)[k].len() == 0,
        opened_map(stored_map(map, bytes), back).contains_key(k),
{
    if bytes.contains_key(k) {
        let s = stored_map(map, bytes)[k];
        let text = crate::utils::dpapi::base64_text(bytes[k]);
        assert(s == "dpapi:"@ + text);
        assert(s.subrange(0, "dpapi:"@.len() as int) =~= "dpapi:"@);
        assert(s.subrange("dpapi:"@.len() as int, s.len() as int) =~= text);
        vstd::utf8::encode_utf8_valid_utf8(map[k]);
        vstd::utf8::encode_utf8_decode_utf8(map[k]);
    }
}

} // verus!
