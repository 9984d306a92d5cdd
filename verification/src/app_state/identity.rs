//! Who a client says it is.

use vstd::prelude::*;
#[allow(unused_imports)]
use vstd::string::*;

use crate::name_map::{lemma_filter_none, lemma_filter_same, lemma_filter_step};
use crate::text::{
    alphanumeric, ascii_alphanumeric, chars_of, control, is_control, slice_chars, text_of, trim_text, trimmed,
    trimming_is_final,
};

verus! {

/// The longest identity that is kept.
pub const MAX_CLIENT_NAME_LEN: usize = 64;

/// The characters that an identity keeps: letters, digits, space, and
/// `. _ - : + @ /`.
pub open spec fn safe_char(c: char) -> bool {
    ||| ascii_alphanumeric(c)
    ||| alphanumeric(c)
    ||| c == ' '
    ||| c == '.'
    ||| c == '_'
    ||| c == '-'
    ||| c == ':'
    ||| c == '+'
    ||| c == '@'
    ||| c == '/'
}

/// A character that is not safe shows as `_`.
pub open spec fn shown_char(c: char) -> char {
    if safe_char(c) {
        c
    } else {
        '_'
    }
}

/// Control characters are dropped, and all others are shown safely.
pub open spec fn scrubbed(s: Seq<char>) -> Seq<char> {
    s.filter(|c: char| !control(c)).map_values(|c: char| shown_char(c))
}

/// The first 64 characters.
pub open spec fn clipped(s: Seq<char>) -> Seq<char> {
    if s.len() > 64 {
        s.subrange(0, 64)
    } else {
        s
    }
}

/// An identity as it is kept and shown.
pub open spec fn sanitized(raw: Seq<char>) -> Seq<char> {
    let s = trimmed(clipped(scrubbed(trimmed(raw))));
    if s.len() == 0 {
        "unnamed-agent"@
    } else {
        s
    }
}

fn is_safe_char(c: char) -> (r: bool)
    ensures
        r == safe_char(c),
{
    c.is_alphanumeric() || c == ' ' || c == '.' || c == '_' || c == '-' || c == ':' || c == '+' || c == '@' || c
        == '/'
}

/// Reduce an identity that a client gives itself to a string that is safe to
/// show. It is applied where the identity is resolved, so that everything
/// downstream shares one value.
pub fn sanitize_client_name(raw: &str) -> (r: String)
    ensures
        r@ == sanitized(raw@),
{
    let start = trim_text(raw);
    let v = chars_of(start.as_str());
    let ghost all = trimmed(raw@);
    let ghost pred = |c: char| !control(c);
    let ghost show = |c: char| shown_char(c);
    let mut clean: Vec<char> = Vec::new();
    proof {
        lemma_filter_none(all, pred);
        assert(all.subrange(0, 0).filter(pred).map_values(show) =~= Seq::<char>::empty());
    }
    let mut i: usize = 0;
    while i < v.len()
        invariant
            i <= v.len(),
            v@ == all,
            pred == (|c: char| !control(c)),
            show == (|c: char| shown_char(c)),
            clean@ == all.subrange(0, i as int).filter(pred).map_values(show),
        decreases v.len() - i,
    {
        let c = v[i];
        let ghost front = all.subrange(0, i as int).filter(pred);
        proof {
            lemma_filter_step(all, pred, i as int);
        }
        if !is_control(c) {
            if is_safe_char(c) {
                clean.push(c);
            } else {
                clean.push('_');
            }
            assert(clean@ =~= front.push(c).map_values(show));
        }
        i = i + 1;
    }
    assert(all.subrange(0, all.len() as int) =~= all);
    let head = if clean.len() > 64 {
        slice_chars(&clean, 0, 64)
    } else {
        clean
    };
    let name = trim_text(text_of(&head).as_str());
    if name.as_str().is_empty() {
        "unnamed-agent".to_owned()
    } else {
        name
    }
}

/// Whatever a client calls itself, the identity that is kept is not empty, at
/// most 64 characters long, and made of safe characters only, none of them a
/// control character.
pub proof fn sanitized_is_safe(raw: Seq<char>)
    ensures
        0 < sanitized(raw).len() <= 64,
        forall|i: int|
            0 <= i < sanitized(raw).len() ==> safe_char(#[trigger] sanitized(raw)[i]) && !control(
                sanitized(raw)[i],
            ),
{
    reveal_strlit("unnamed-agent");
    let t = trimmed(raw);
    let pred = |c: char| !control(c);
    let kept = t.filter(pred);
    let s = scrubbed(t);
    assert forall|i: int| 0 <= i < s.len() implies safe_char(#[trigger] s[i]) && !control(s[i]) by {
        t.lemma_filter_pred(pred, i);
        assert(s[i] == shown_char(kept[i]));
    }
    let c = clipped(s);
    trimming_is_final(c);
    let out = trimmed(c);
    assert forall|i: int| 0 <= i < out.len() implies safe_char(#[trigger] out[i]) && !control(out[i]) by {
        let k = choose|k: int| 0 <= k < c.len() && c[k] == out[i];
        assert(c[k] == s[k]);
    }
}

/// Sanitizing an identity that is sanitized already changes nothing.
pub proof fn sanitizing_is_final(raw: Seq<char>)
    ensures
        sanitized(sanitized(raw)) == sanitized(raw),
{
    let n = sanitized(raw);
    sanitized_is_safe(raw);
    reveal_strlit("unnamed-agent");
    trimming_is_final(clipped(scrubbed(trimmed(raw))));
    if trimmed(clipped(scrubbed(trimmed(raw)))).len() == 0 {
        assert(trimmed(n) == n);
    }
    let pred = |c: char| !control(c);
    assert forall|i: int| 0 <= i < n.len() implies pred(#[trigger] n[i]) by {
        assert(safe_char(n[i]) && !control(n[i]));
    }
    lemma_filter_same(n, pred);
    assert(scrubbed(n) =~= n) by {
        assert forall|i: int| 0 <= i < n.len() implies shown_char(#[trigger] n[i]) == n[i] by {
            assert(safe_char(n[i]) && !control(n[i]));
        }
    }
    assert(clipped(n) == n);
}

/// The letters and digits of ASCII, the space, and the few signs that names have.
pub open spec fn plain_char(c: char) -> bool {
    ||| ('a' <= c && c <= 'z')
    ||| ('A' <= c && c <= 'Z')
    ||| ('0' <= c && c <= '9')
    ||| c == ' '
    ||| c == '.'
    ||| c == '_'
    ||| c == '-'
    ||| c == ':'
    ||| c == '+'
    ||| c == '@'
    ||| c == '/'
}

proof fn lemma_plain_char(c: char)
    requires
        plain_char(c),
    ensures
        !control(c),
        shown_char(c) == c,
        c != ' ' ==> !crate::text::white_space(c),
{
}

/// A name that is safe already stays as it is: one of at most sixty-four plain
/// characters, without space at its ends.
pub proof fn safe_names_stay(raw: Seq<char>)
    requires
        0 < raw.len() <= 64,
        forall|i: int| 0 <= i < raw.len() ==> plain_char(#[trigger] raw[i]),
        raw[0] != ' ',
        raw.last() != ' ',
    ensures
        sanitized(raw) == raw,
{
    lemma_plain_char(raw[0]);
    lemma_plain_char(raw.last());
    crate::text::trimming_takes_white_space_off(Seq::empty(), raw, Seq::empty());
    assert(Seq::<char>::empty() + raw + Seq::<char>::empty() =~= raw);
    let pred = |c: char| !control(c);
    assert forall|i: int| 0 <= i < raw.len() implies pred(#[trigger] raw[i]) by {
        lemma_plain_char(raw[i]);
    }
    lemma_filter_same(raw, pred);
    assert(scrubbed(raw) =~= raw) by {
        assert forall|i: int| 0 <= i < raw.len() implies shown_char(#[trigger] raw[i]) == raw[i] by {
            lemma_plain_char(raw[i]);
        }
    }
}

/// A sign that names do not have becomes an underscore, and a control character is
/// left out; a name that nothing is left of is one of its own.
pub proof fn unsafe_characters_are_replaced(c: char)
    ensures
        !control(c) && !alphanumeric(c) && !ascii_alphanumeric(c) && c != ' ' && c != '.' && c != '_' && c != '-' && c != ':'
            && c != '+' && c != '@' && c != '/' ==> shown_char(c) == '_',
        scrubbed(seq![c]).len() == (if control(c) {
            0nat
        } else {
            1nat
        }),
        control('\n') && control('\r') && control('\u{1b}') && control('\u{7f}') && !control('a') && !control(' '),
        sanitized(Seq::empty()) == "unnamed-agent"@,
{
    let pred = |x: char| !control(x);
    let s = seq![c];
    reveal(Seq::filter);
    assert(s.drop_last() =~= Seq::<char>::empty());
    assert(s.drop_last().filter(pred) =~= Seq::<char>::empty());
    assert(Seq::<char>::empty().filter(pred) =~= Seq::<char>::empty());
    assert(scrubbed(Seq::empty()) =~= Seq::<char>::empty());
    assert(trimmed(Seq::empty()) =~= Seq::<char>::empty());
}

} // verus!
