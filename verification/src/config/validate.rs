//! The rules that jack names keep, and the report on a configuration that
//! breaks them.

use vstd::prelude::*;
#[allow(unused_imports)]
use vstd::string::*;

use super::grants::jack_names;
use super::schema::PatchbayConfig;
use crate::name_map::{in_order, pair_keys, NameMap};
use crate::numerals::{decimal, decimal_text};
use crate::text::{ascii_alphanumeric, chars_of, contains_text, holds, is_ascii_alphanumeric, texts};

verus! {

/// The longest jack name, in bytes.
pub const MAX_JACK_NAME_LEN: usize = 40;

/// Number of bytes of a text in UTF-8.
pub open spec fn byte_len(s: Seq<char>) -> nat {
    vstd::utf8::encode_utf8(s).len()
}

pub open spec fn name_char(c: char) -> bool {
    ascii_alphanumeric(c) || c == '_' || c == '-'
}

pub open spec fn name_charset(name: Seq<char>) -> bool {
    forall|i: int| 0 <= i < name.len() ==> name_char(#[trigger] name[i])
}

/// A name that a jack may have: not empty, of ASCII letters, digits, `_` and
/// `-` only, without the separator `__`, and at most 40 bytes long.
pub open spec fn valid_jack_name(name: Seq<char>) -> bool {
    &&& name.len() > 0
    &&& byte_len(name) <= 40
    &&& !holds(name, "__"@)
    &&& name_charset(name)
}

/// A text as `{:?}` shows it: in double quotes, with escapes where needed.
pub uninterp spec fn debug_text(s: Seq<char>) -> Seq<char>;

/// Whether `{:?}` shows the character as it is.
pub open spec fn plain_char(c: char) -> bool {
    ' ' <= c && c <= '~' && c != '"' && c != '\\'
}

/// `format!("{:?}", s)`, the `Debug` form of a `str`. Of texts that need no
/// escape it is the text in double quotes; which other characters are escaped,
/// and how, is not stated.
#[verifier::external_body]
pub(crate) fn quoted(s: &str) -> (r: String)
    ensures
        r@ == debug_text(s@),
        (forall|i: int| 0 <= i < s@.len() ==> plain_char(#[trigger] s@[i])) ==> r@ == seq!['"'] + s@ + seq!['"'],
{
    format!("{:?}", s)
}

fn byte_count(s: &str) -> (r: usize)
    ensures
        r == byte_len(s@),
{
    s.as_bytes().len()
}

/// `^[A-Za-z0-9_-]*$`.
pub fn is_valid_name_charset(name: &str) -> (r: bool)
    ensures
        r == name_charset(name@),
{
    let v = chars_of(name);
    let mut i: usize = 0;
    while i < v.len()
        invariant
            i <= v.len(),
            v@ == name@,
            forall|k: int| 0 <= k < i ==> name_char(#[trigger] v@[k]),
        decreases v.len() - i,
    {
        let c = v[i];
        if !(is_ascii_alphanumeric(c) || c == '_' || c == '-') {
            assert(!name_char(name@[i as int]));
            return false;
        }
        i = i + 1;
    }
    true
}

/// Whether a jack may have this name.
pub fn is_valid_jack_name(name: &str) -> (r: bool)
    ensures
        r == valid_jack_name(name@),
{
    !name.is_empty() && byte_count(name) <= 40 && !contains_text(name, "__") && is_valid_name_charset(name)
}

/// How often `name` stands in `names`.
pub open spec fn times(names: Seq<Seq<char>>, name: Seq<char>) -> nat
    decreases names.len(),
{
    if names.len() == 0 {
        0
    } else {
        times(names.drop_last(), name) + if names.last() == name {
            1nat
        } else {
            0nat
        }
    }
}

/// What is wrong with the name of the jack at position `i`, taken by itself.
pub open spec fn name_errors(i: nat, name: Seq<char>) -> Seq<Seq<char>> {
    let at = "jack["@ + decimal(i);
    if name.len() == 0 {
        seq![at + "]: name is empty"@]
    } else {
        let shown = at + "]: name "@ + debug_text(name);
        let too_long = if byte_len(name) > 40 {
            seq![shown + " is "@ + decimal(byte_len(name)) + " chars (max 40)"@]
        } else {
            seq![]
        };
        let reserved = if holds(name, "__"@) {
            seq![shown + " contains reserved separator '__'"@]
        } else {
            seq![]
        };
        let charset = if !name_charset(name) {
            seq![shown + " has invalid chars (allowed: A-Z a-z 0-9 _ -)"@]
        } else {
            seq![]
        };
        too_long + reserved + charset
    }
}

/// What is wrong with the names taken one by one, in the order of the jacks.
pub open spec fn each_name_errors(names: Seq<Seq<char>>) -> Seq<Seq<char>>
    decreases names.len(),
{
    if names.len() == 0 {
        seq![]
    } else {
        each_name_errors(names.drop_last()) + name_errors((names.len() - 1) as nat, names.last())
    }
}

/// One report per name of `keys` that stands in `names` more than once.
pub open spec fn repeat_errors(keys: Seq<Seq<char>>, names: Seq<Seq<char>>) -> Seq<Seq<char>>
    decreases keys.len(),
{
    if keys.len() == 0 {
        seq![]
    } else {
        let k = keys.last();
        repeat_errors(keys.drop_last(), names) + if times(names, k) > 1 {
            seq!["jack name "@ + debug_text(k) + " appears "@ + decimal(times(names, k)) + " times (must be unique)"@]
        } else {
            seq![]
        }
    }
}

/// Everything that is wrong with the jack names: first each name by itself,
/// then the names that are not unique, in dictionary order.
pub open spec fn violations(names: Seq<Seq<char>>) -> Seq<Seq<char>> {
    each_name_errors(names) + repeat_errors(in_order(names.to_set()), names)
}

fn shown_name(i: usize, name: &str) -> (r: String)
    ensures
        r@ == "jack["@ + decimal(i as nat) + "]: name "@ + debug_text(name@),
{
    let mut s = "jack[".to_owned();
    s.append(decimal_text(i as u64).as_str());
    s.append("]: name ");
    s.append(quoted(name).as_str());
    s
}

fn check_name(i: usize, name: &str, errors: &mut Vec<String>)
    ensures
        texts(final(errors)@) == texts(old(errors)@) + name_errors(i as nat, name@),
{
    let ghost before = texts(errors@);
    let ghost expected = name_errors(i as nat, name@);
    if name.is_empty() {
        let mut s = "jack[".to_owned();
        s.append(decimal_text(i as u64).as_str());
        s.append("]: name is empty");
        errors.push(s);
        assert(texts(errors@) =~= before + expected);
    } else {
        let n: usize = byte_count(name);
        let ghost shown = "jack["@ + decimal(i as nat) + "]: name "@ + debug_text(name@);
        let ghost mut step: Seq<Seq<char>> = seq![];
        if n > 40 {
            let mut s = shown_name(i, name);
            s.append(" is ");
            s.append(decimal_text(n as u64).as_str());
            s.append(" chars (max 40)");
            errors.push(s);
            proof {
                step = step.push(s@);
            }
        }
        assert(texts(errors@) =~= before + step);
        if contains_text(name, "__") {
            let mut s = shown_name(i, name);
            s.append(" contains reserved separator '__'");
            let ghost prev = texts(errors@);
            errors.push(s);
            assert(texts(errors@) =~= prev.push(s@));
            proof {
                step = step.push(s@);
            }
        }
        assert(texts(errors@) =~= before + step);
        if !is_valid_name_charset(name) {
            let mut s = shown_name(i, name);
            s.append(" has invalid chars (allowed: A-Z a-z 0-9 _ -)");
            let ghost prev = texts(errors@);
            errors.push(s);
            assert(texts(errors@) =~= prev.push(s@));
            proof {
                step = step.push(s@);
            }
        }
        assert(texts(errors@) =~= before + step);
        assert(step =~= expected);
    }
}

/// Check every jack name, and report all that is wrong with them.
pub fn validate(cfg: &PatchbayConfig) -> (r: Result<(), Vec<String>>)
    ensures
        r is Ok <==> violations(jack_names(cfg@.jacks)) == Seq::<Seq<char>>::empty(),
        r matches Err(errors) ==> texts(errors@) == violations(jack_names(cfg@.jacks)),
{
    let names = cfg.jack_names();
    let ghost all = jack_names(cfg@.jacks);
    let mut errors: Vec<String> = Vec::new();
    let mut counts: NameMap<u64> = NameMap::new();
    assert(all.subrange(0, 0) =~= Seq::<Seq<char>>::empty());
    assert(texts(errors@) =~= Seq::<Seq<char>>::empty());
    let mut i: usize = 0;
    while i < names.len()
        invariant
            i <= names.len(),
            texts(names@) == all,
            texts(errors@) == each_name_errors(all.subrange(0, i as int)),
            forall|x: Seq<char>| #[trigger]
                counts@.contains_key(x) <==> all.subrange(0, i as int).to_set().contains(x),
            forall|x: Seq<char>| #[trigger]
                counts@.contains_key(x) ==> counts@[x] == times(all.subrange(0, i as int), x),
            forall|x: Seq<char>| #[trigger] times(all.subrange(0, i as int), x) <= i,
        decreases names.len() - i,
    {
        let ghost step = all.subrange(0, i + 1);
        let ghost front = all.subrange(0, i as int);
        let ghost counts_before = counts@;
        assert(step.drop_last() =~= front);
        assert(all[i as int] == names@[i as int]@);
        assert(step.last() == names@[i as int]@);
        check_name(i, names[i].as_str(), &mut errors);
        let seen: u64 = match counts.get(names[i].as_str()) {
            Some(n) => *n,
            None => 0,
        };
        proof {
            if !counts@.contains_key(names@[i as int]@) {
                lemma_times_absent(front, names@[i as int]@);
            }
            assert(times(front, names@[i as int]@) <= i);
        }
        counts = counts.put(names[i].clone(), seen + 1);
        i = i + 1;
        proof {
            assert forall|x: Seq<char>| #[trigger] counts@.contains_key(x) <==> step.to_set().contains(x) by {
                lemma_push_set(front, step.last(), x);
                assert(step =~= front.push(step.last()));
                assert(counts_before.contains_key(x) <==> front.to_set().contains(x));
            }
            assert forall|x: Seq<char>| #[trigger] times(step, x) <= i by {
                assert(times(front, x) <= i - 1);
            }
        }
    }
    assert(all.subrange(0, all.len() as int) =~= all);
    counts.facts();
    assert(counts@.dom() =~= all.to_set());
    let keys = counts.keys();
    let ghost order = in_order(all.to_set());
    let mut j: usize = 0;
    assert(order.subrange(0, 0) =~= Seq::<Seq<char>>::empty());
    assert(texts(errors@) =~= each_name_errors(all) + repeat_errors(order.subrange(0, 0), all));
    while j < keys.len()
        invariant
            j <= keys.len(),
            texts(keys@) == order,
            order == in_order(counts@.dom()),
            order == pair_keys(counts.pairs()),
            counts.pairs().len() == order.len(),
            forall|k: int|
                0 <= k < counts.pairs().len() ==> counts@.contains_key((#[trigger] counts.pairs()[k]).0)
                    && counts@[counts.pairs()[k].0] == counts.pairs()[k].1,
            forall|x: Seq<char>| #[trigger] counts@.contains_key(x) ==> counts@[x] == times(all, x),
            texts(errors@) == each_name_errors(all) + repeat_errors(order.subrange(0, j as int), all),
        decreases keys.len() - j,
    {
        let ghost step = order.subrange(0, j + 1);
        assert(step.drop_last() =~= order.subrange(0, j as int));
        assert(order[j as int] == counts.pairs()[j as int].0);
        assert(order[j as int] == keys@[j as int]@);
        let ghost prev = texts(errors@);
        let n: u64 = *counts.value_at(j);
        if n > 1 {
            let mut s = "jack name ".to_owned();
            s.append(quoted(keys[j].as_str()).as_str());
            s.append(" appears ");
            s.append(decimal_text(n).as_str());
            s.append(" times (must be unique)");
            errors.push(s);
            assert(texts(errors@) =~= prev.push(s@));
        }
        j = j + 1;
        assert(texts(errors@) =~= each_name_errors(all) + repeat_errors(step, all));
    }
    assert(order.subrange(0, order.len() as int) =~= order);
    assert(texts(errors@).len() == errors@.len());
    if errors.len() == 0 {
        assert(texts(errors@) =~= Seq::<Seq<char>>::empty());
        Ok(())
    } else {
        Err(errors)
    }
}

proof fn lemma_times_absent(names: Seq<Seq<char>>, x: Seq<char>)
    requires
        !names.to_set().contains(x),
    ensures
        times(names, x) == 0,
    decreases names.len(),
{
    if names.len() > 0 {
        assert(names.to_set().contains(names.last())) by {
            assert(names[names.len() - 1] == names.last());
        }
        assert(!names.drop_last().to_set().contains(x)) by {
            if names.drop_last().to_set().contains(x) {
                let k = choose|k: int| 0 <= k < names.len() - 1 && names.drop_last()[k] == x;
                assert(names[k] == x);
            }
        }
        lemma_times_absent(names.drop_last(), x);
    }
}

proof fn lemma_push_set(names: Seq<Seq<char>>, last: Seq<char>, x: Seq<char>)
    ensures
        names.push(last).to_set().contains(x) <==> names.to_set().contains(x) || x == last,
{
    let t = names.push(last);
    if names.to_set().contains(x) {
        let k = choose|k: int| 0 <= k < names.len() && names[k] == x;
        assert(t[k] == x);
    }
    assert(t[t.len() - 1] == last);
    if t.to_set().contains(x) && x != last {
        let k = choose|k: int| 0 <= k < t.len() && t[k] == x;
        assert(names[k] == x);
    }
}

/// The names of a clean configuration: every one of them valid, and no two the
/// same.
pub open spec fn clean_names(names: Seq<Seq<char>>) -> bool {
    &&& forall|i: int| 0 <= i < names.len() ==> valid_jack_name(#[trigger] names[i])
    &&& names.no_duplicates()
}

/// A configuration has nothing to report exactly when its jack names are all
/// valid and all different.
pub proof fn clean_iff_no_violations(names: Seq<Seq<char>>)
    ensures
        violations(names) == Seq::<Seq<char>>::empty() <==> clean_names(names),
{
    let keys = in_order(names.to_set());
    vstd::seq_lib::seq_to_set_is_finite(names);
    crate::name_map::in_order_lists(names.to_set());
    lemma_each_clean(names);
    lemma_repeats_clean(keys, names);
    assert(violations(names).len() == each_name_errors(names).len() + repeat_errors(keys, names).len());
    assert(each_name_errors(names).len() == 0 ==> each_name_errors(names) =~= Seq::<Seq<char>>::empty());
    if violations(names).len() == 0 {
        assert(violations(names) =~= Seq::<Seq<char>>::empty());
    }
    if clean_names(names) {
        assert forall|k: int| 0 <= k < keys.len() implies times(names, #[trigger] keys[k]) <= 1 by {
            lemma_times_unique(names, keys[k]);
        }
    }
    if repeat_errors(keys, names).len() == 0 {
        assert forall|i: int, j: int| 0 <= i < j < names.len() implies names[i] != names[j] by {
            if names[i] == names[j] {
                lemma_times_twice(names, i, j);
                assert(names.to_set().contains(names[i]));
                assert(keys.to_set().contains(names[i]));
                let k = choose|k: int| 0 <= k < keys.len() && keys[k] == names[i];
                assert(times(names, keys[k]) <= 1);
            }
        }
    }
}

proof fn lemma_each_clean(names: Seq<Seq<char>>)
    ensures
        each_name_errors(names).len() == 0 <==> forall|i: int|
            0 <= i < names.len() ==> valid_jack_name(#[trigger] names[i]),
    decreases names.len(),
{
    if names.len() > 0 {
        let front = names.drop_last();
        lemma_each_clean(front);
        let n = (names.len() - 1) as nat;
        assert(name_errors(n, names.last()).len() == 0 <==> valid_jack_name(names.last()));
        if each_name_errors(names).len() == 0 {
            assert forall|i: int| 0 <= i < names.len() implies valid_jack_name(#[trigger] names[i]) by {
                if i < front.len() {
                    assert(front[i] == names[i]);
                }
            }
        }
        if forall|i: int| 0 <= i < names.len() ==> valid_jack_name(#[trigger] names[i]) {
            assert forall|i: int| 0 <= i < front.len() implies valid_jack_name(#[trigger] front[i]) by {
                assert(front[i] == names[i]);
            }
            assert(valid_jack_name(names[names.len() - 1]));
        }
    }
}

proof fn lemma_repeats_clean(keys: Seq<Seq<char>>, names: Seq<Seq<char>>)
    ensures
        repeat_errors(keys, names).len() == 0 <==> forall|k: int|
            0 <= k < keys.len() ==> times(names, #[trigger] keys[k]) <= 1,
    decreases keys.len(),
{
    if keys.len() > 0 {
        let front = keys.drop_last();
        lemma_repeats_clean(front, names);
        if repeat_errors(keys, names).len() == 0 {
            assert forall|k: int| 0 <= k < keys.len() implies times(names, #[trigger] keys[k]) <= 1 by {
                if k < front.len() {
                    assert(front[k] == keys[k]);
                }
            }
        }
        if forall|k: int| 0 <= k < keys.len() ==> times(names, #[trigger] keys[k]) <= 1 {
            assert forall|k: int| 0 <= k < front.len() implies times(names, #[trigger] front[k]) <= 1 by {
                assert(front[k] == keys[k]);
            }
            assert(times(names, keys[keys.len() - 1]) <= 1);
        }
    }
}

proof fn lemma_times_unique(names: Seq<Seq<char>>, x: Seq<char>)
    requires
        names.no_duplicates(),
    ensures
        times(names, x) <= 1,
    decreases names.len(),
{
    if names.len() > 0 {
        let front = names.drop_last();
        assert(front.no_duplicates());
        lemma_times_unique(front, x);
        if names.last() == x {
            assert(!front.to_set().contains(x)) by {
                if front.to_set().contains(x) {
                    let k = choose|k: int| 0 <= k < front.len() && front[k] == x;
                    assert(names[k] == names[names.len() - 1]);
                }
            }
            lemma_times_absent(front, x);
        }
    }
}

proof fn lemma_times_twice(names: Seq<Seq<char>>, i: int, j: int)
    requires
        0 <= i < j < names.len(),
        names[i] == names[j],
    ensures
        times(names, names[i]) >= 2,
    decreases names.len(),
{
    let front = names.drop_last();
    if j < names.len() - 1 {
        assert(front[i] == names[i] && front[j] == names[j]);
        lemma_times_twice(front, i, j);
    } else {
        assert(front[i] == names[i]);
        lemma_times_present(front, i);
    }
}

proof fn lemma_times_present(names: Seq<Seq<char>>, i: int)
    requires
        0 <= i < names.len(),
    ensures
        times(names, names[i]) >= 1,
    decreases names.len(),
{
    if i < names.len() - 1 {
        assert(names.drop_last()[i] == names[i]);
        lemma_times_present(names.drop_last(), i);
    }
}

/// A valid name is one byte per character, so it is at most 40 characters long.
pub proof fn valid_name_length(name: Seq<char>)
    requires
        valid_jack_name(name),
    ensures
        0 < name.len() <= 40,
{
    assert(vstd::utf8::is_ascii_chars(name)) by {
        assert forall|i: int| 0 <= i < name.len() implies '\0' <= #[trigger] name[i] && name[i] <= '\u{7f}' by {
            assert(name_char(name[i]));
        }
    }
    vstd::utf8::is_ascii_chars_encode_utf8(name);
}

/// The names that a jack may have: between one and forty letters, digits, underscores
/// and hyphens, with no two underscores in a row.
pub proof fn valid_names_are_short_and_plain(name: Seq<char>)
    ensures
        valid_jack_name(name) <==> {
            &&& 1 <= name.len() <= 40
            &&& forall|i: int|
                0 <= i < name.len() ==> {
                    let c = #[trigger] name[i];
                    ('a' <= c && c <= 'z') || ('A' <= c && c <= 'Z') || ('0' <= c && c <= '9') || c == '_' || c == '-'
                }
            &&& forall|i: int| 0 <= i < name.len() - 1 ==> !(#[trigger] name[i] == '_' && name[i + 1] == '_')
        },
{
    reveal_strlit("__");
    if name_charset(name) {
        assert(vstd::utf8::is_ascii_chars(name)) by {
            assert forall|i: int| 0 <= i < name.len() implies name[i] as u32 <= 127 by {
                assert(name_char(name[i]));
            }
        }
        vstd::utf8::is_ascii_chars_encode_utf8(name);
        assert(byte_len(name) == name.len());
    }
    if holds(name, "__"@) {
        let i = choose|i: int| crate::text::occurs_at(name, "__"@, i);
        assert(name.subrange(i, i + 2)[0] == '_' && name.subrange(i, i + 2)[1] == '_');
        assert(name[i] == '_' && name[i + 1] == '_');
    }
    if exists|i: int| 0 <= i < name.len() - 1 && #[trigger] name[i] == '_' && name[i + 1] == '_' {
        let i = choose|i: int| 0 <= i < name.len() - 1 && #[trigger] name[i] == '_' && name[i + 1] == '_';
        assert(name.subrange(i, i + 2) =~= "__"@);
        assert(crate::text::occurs_at(name, "__"@, i));
    }
}

/// Every name that is not valid is complained of, with its position, and so is every
/// name that stands twice.
pub proof fn every_bad_name_is_told(names: Seq<Seq<char>>, i: int, j: int)
    requires
        0 <= i < names.len(),
    ensures
        !valid_jack_name(names[i]) ==> exists|k: int|
            0 <= k < violations(names).len() && crate::text::occurs_at(
                #[trigger] violations(names)[k],
                "jack["@ + decimal(i as nat) + "]"@,
                0,
            ),
        i < j < names.len() && names[i] == names[j] ==> exists|k: int|
            0 <= k < violations(names).len() && crate::text::holds(
                #[trigger] violations(names)[k],
                debug_text(names[i]),
            ),
{
    let all = violations(names);
    let each = each_name_errors(names);
    if !valid_jack_name(names[i]) {
        lemma_each_told(names, i);
        let k = choose|k: int|
            0 <= k < each.len() && crate::text::occurs_at(#[trigger] each[k], "jack["@ + decimal(i as nat) + "]"@, 0);
        assert(all[k] == each[k]);
    }
    if i < j < names.len() && names[i] == names[j] {
        lemma_times_twice(names, i, j);
        let keys = in_order(names.to_set());
        crate::name_map::in_order_lists(names.to_set());
        assert(names.to_set().contains(names[i]));
        assert(keys.to_set().contains(names[i]));
        let n = choose|n: int| 0 <= n < keys.len() && keys[n] == names[i];
        lemma_repeats_told(keys, names, n);
        let rep = repeat_errors(keys, names);
        let k = choose|k: int| 0 <= k < rep.len() && crate::text::holds(#[trigger] rep[k], debug_text(keys[n]));
        assert(all[each.len() + k] == rep[k]);
    }
}

proof fn lemma_each_told(names: Seq<Seq<char>>, i: int)
    requires
        0 <= i < names.len(),
        !valid_jack_name(names[i]),
    ensures
        exists|k: int|
            0 <= k < each_name_errors(names).len() && crate::text::occurs_at(
                #[trigger] each_name_errors(names)[k],
                "jack["@ + decimal(i as nat) + "]"@,
                0,
            ),
    decreases names.len(),
{
    let front = names.drop_last();
    let before = each_name_errors(front);
    let last = name_errors((names.len() - 1) as nat, names.last());
    let all = each_name_errors(names);
    let head = "jack["@ + decimal(i as nat) + "]"@;
    if i < front.len() {
        assert(front[i] == names[i]);
        lemma_each_told(front, i);
        let k = choose|k: int| 0 <= k < before.len() && crate::text::occurs_at(#[trigger] before[k], head, 0);
        assert(all[k] == before[k]);
    } else {
        reveal_strlit("]");
        reveal_strlit("]: name is empty");
        reveal_strlit("]: name ");
        let line = last[0];
        let at = "jack["@ + decimal(i as nat);
        assert(last.len() > 0);
        assert(line.subrange(0, head.len() as int) =~= head);
        assert(all[before.len() as int] == line);
    }
}

proof fn lemma_repeats_told(keys: Seq<Seq<char>>, names: Seq<Seq<char>>, n: int)
    requires
        0 <= n < keys.len(),
        times(names, keys[n]) > 1,
    ensures
        exists|k: int|
            0 <= k < repeat_errors(keys, names).len() && crate::text::holds(
                #[trigger] repeat_errors(keys, names)[k],
                debug_text(keys[n]),
            ),
    decreases keys.len(),
{
    let front = keys.drop_last();
    let before = repeat_errors(front, names);
    let all = repeat_errors(keys, names);
    if n < front.len() {
        assert(front[n] == keys[n]);
        lemma_repeats_told(front, names, n);
        let k = choose|k: int| 0 <= k < before.len() && crate::text::holds(#[trigger] before[k], debug_text(keys[n]));
        assert(all[k] == before[k]);
    } else {
        let line = all[before.len() as int];
        let head = "jack name "@;
        let shown = debug_text(keys[n]);
        assert(line.subrange(head.len() as int, (head.len() + shown.len()) as int) =~= shown);
        assert(crate::text::occurs_at(line, shown, head.len() as int));
        assert(crate::text::holds(all[before.len() as int], shown));
    }
}

/// Plain characters are the letters, digits and signs that stand for themselves between
/// quotes: no quote, no backslash, no control character and nothing beyond ASCII.
pub proof fn plain_characters_need_no_escape(c: char)
    ensures
        plain_char(c) ==> ' ' <= c && c <= '~' && c != '"' && c != '\\',
        ascii_alphanumeric(c) || c == '_' || c == '-' || c == ' ' || c == '.' ==> plain_char(c),
{
}

} // verus!
