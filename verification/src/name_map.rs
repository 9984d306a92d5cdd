//! A map keyed by names and kept in the order of its names.

use vstd::prelude::*;

use crate::text::{chars_of, same_text, texts};

verus! {

/// A value that can be copied out without losing anything of its model.
pub trait Replica: View + Sized {
    fn replica(&self) -> (r: Self)
        ensures
            r@ == self@,
    ;
}

impl Replica for bool {
    fn replica(&self) -> (r: Self) {
        *self
    }
}

impl Replica for u64 {
    fn replica(&self) -> (r: Self) {
        *self
    }
}

impl Replica for String {
    fn replica(&self) -> (r: Self) {
        self.clone()
    }
}

/// The models of a row of values.
pub open spec fn views<T: View>(list: Seq<T>) -> Seq<T::V> {
    list.map_values(|x: T| x@)
}

/// The models of an optional value.
pub open spec fn view_opt<T: View>(o: Option<T>) -> Option<T::V> {
    match o {
        Some(x) => Some(x@),
        None => None,
    }
}

pub fn replicas<T: Replica>(list: &Vec<T>) -> (r: Vec<T>)
    ensures
        views(r@) == views(list@),
{
    let mut out: Vec<T> = Vec::new();
    let mut i: usize = 0;
    while i < list.len()
        invariant
            i <= list.len(),
            views(out@) == views(list@).subrange(0, i as int),
        decreases list.len() - i,
    {
        let ghost prev = views(out@);
        let v = list[i].replica();
        out.push(v);
        assert(views(out@) =~= prev.push(list@[i as int]@));
        i = i + 1;
        assert(views(out@) =~= views(list@).subrange(0, i as int));
    }
    assert(views(out@) =~= views(list@));
    out
}

pub fn replica_opt<T: Replica>(o: &Option<T>) -> (r: Option<T>)
    ensures
        view_opt(r) == view_opt(*o),
{
    match o {
        Some(x) => Some(x.replica()),
        None => None,
    }
}

/// What one more item adds to a filtered row.
pub proof fn lemma_filter_step<A>(items: Seq<A>, pred: spec_fn(A) -> bool, i: int)
    requires
        0 <= i < items.len(),
    ensures
        items.subrange(0, i + 1).filter(pred) == if pred(items[i]) {
            items.subrange(0, i).filter(pred).push(items[i])
        } else {
            items.subrange(0, i).filter(pred)
        },
{
    reveal(Seq::filter);
    let s = items.subrange(0, i + 1);
    assert(s.drop_last() =~= items.subrange(0, i));
    assert(s.last() == items[i]);
}

/// Nothing is left of an empty row.
pub proof fn lemma_filter_none<A>(items: Seq<A>, pred: spec_fn(A) -> bool)
    ensures
        items.subrange(0, 0).filter(pred) == Seq::<A>::empty(),
{
    reveal(Seq::filter);
    assert(items.subrange(0, 0).filter(pred) =~= Seq::<A>::empty());
}

/// A filter takes something out of a row exactly when it makes it shorter.
pub proof fn lemma_filter_same<A>(items: Seq<A>, pred: spec_fn(A) -> bool)
    ensures
        items.filter(pred).len() <= items.len(),
        items.filter(pred).len() == items.len() <==> items.filter(pred) == items,
        items.filter(pred) == items <==> forall|i: int| 0 <= i < items.len() ==> pred(#[trigger] items[i]),
    decreases items.len(),
{
    reveal(Seq::filter);
    if items.len() > 0 {
        let front = items.drop_last();
        lemma_filter_same(front, pred);
        assert(items =~= front.push(items.last()));
        if items.filter(pred) == items {
            if !pred(items.last()) {
                assert(items.filter(pred).len() <= front.len());
            }
            assert(front.filter(pred).len() == front.len());
            assert forall|i: int| 0 <= i < items.len() implies pred(#[trigger] items[i]) by {
                if i < front.len() {
                    assert(front[i] == items[i]);
                }
            }
        }
        if forall|i: int| 0 <= i < items.len() ==> pred(#[trigger] items[i]) {
            assert forall|i: int| 0 <= i < front.len() implies pred(#[trigger] front[i]) by {
                assert(front[i] == items[i]);
            }
            assert(pred(items[items.len() - 1]));
        }
    } else {
        assert(items.filter(pred) =~= items);
    }
}

/// A filter keeps the order of a row.
pub proof fn lemma_filter_order<A>(items: Seq<A>, pred: spec_fn(A) -> bool, i: int, j: int)
    requires
        0 <= i < j < items.filter(pred).len(),
    ensures
        exists|a: int, b: int|
            0 <= a < b < items.len() && #[trigger] items[a] == items.filter(pred)[i] && #[trigger] items[b]
                == items.filter(pred)[j],
    decreases items.len(),
{
    reveal(Seq::filter);
    let front = items.drop_last();
    let kept = items.filter(pred);
    let before = front.filter(pred);
    if j < before.len() {
        lemma_filter_order(front, pred, i, j);
        let (a, b) = choose|a: int, b: int|
            0 <= a < b < front.len() && #[trigger] front[a] == before[i] && #[trigger] front[b] == before[j];
        assert(items[a] == kept[i] && items[b] == kept[j]);
    } else {
        let x = before[i];
        assert(before.contains(x));
        lemma_filter_holds(front, pred, x);
        let a = choose|a: int| 0 <= a < front.len() && front[a] == x;
        assert(items[a] == kept[i] && items[items.len() - 1] == kept[j]);
    }
}

/// What is left of a row are the items of it that satisfy the predicate.
pub proof fn lemma_filter_holds<A>(items: Seq<A>, pred: spec_fn(A) -> bool, x: A)
    ensures
        items.filter(pred).contains(x) <==> items.contains(x) && pred(x),
{
    if items.filter(pred).contains(x) {
        items.lemma_filter_contains_rev(pred, x);
        let i = choose|i: int| 0 <= i < items.filter(pred).len() && items.filter(pred)[i] == x;
        items.lemma_filter_pred(pred, i);
    }
    if items.contains(x) && pred(x) {
        let i = choose|i: int| 0 <= i < items.len() && items[i] == x;
        items.lemma_filter_contains(pred, i);
    }
}

/// `a` comes strictly before `b` in the dictionary order of code points.
pub open spec fn before(a: Seq<char>, b: Seq<char>) -> bool
    decreases a.len(),
{
    if b.len() == 0 {
        false
    } else if a.len() == 0 {
        true
    } else if a[0] != b[0] {
        a[0] < b[0]
    } else {
        before(a.drop_first(), b.drop_first())
    }
}

/// A strictly ascending list of names: in order, and none of them twice.
pub open spec fn ascending(keys: Seq<Seq<char>>) -> bool {
    forall|i: int, j: int| 0 <= i < j < keys.len() ==> before(#[trigger] keys[i], #[trigger] keys[j])
}

/// The names of a finite set, in order.
pub open spec fn in_order(names: Set<Seq<char>>) -> Seq<Seq<char>> {
    choose|s: Seq<Seq<char>>| #[trigger] ascending(s) && s.to_set() =~= names
}

pub proof fn before_irreflexive(a: Seq<char>)
    ensures
        !before(a, a),
    decreases a.len(),
{
    if a.len() > 0 {
        before_irreflexive(a.drop_first());
    }
}

pub proof fn before_transitive(a: Seq<char>, b: Seq<char>, c: Seq<char>)
    requires
        before(a, b),
        before(b, c),
    ensures
        before(a, c),
    decreases a.len(),
{
    if a.len() > 0 && a[0] == b[0] && b[0] == c[0] {
        before_transitive(a.drop_first(), b.drop_first(), c.drop_first());
    }
}

pub proof fn before_total(a: Seq<char>, b: Seq<char>)
    ensures
        before(a, b) || a == b || before(b, a),
    decreases a.len(),
{
    if a.len() == 0 && b.len() == 0 {
        assert(a =~= b);
    } else if a.len() > 0 && b.len() > 0 && a[0] == b[0] {
        before_total(a.drop_first(), b.drop_first());
        if a.drop_first() == b.drop_first() {
            assert(a =~= seq![a[0]] + a.drop_first());
            assert(b =~= seq![b[0]] + b.drop_first());
        }
    }
}

proof fn lemma_ascending_drop_last(s: Seq<Seq<char>>)
    requires
        ascending(s),
        s.len() > 0,
    ensures
        ascending(s.drop_last()),
        !s.drop_last().contains(s.last()),
        s.drop_last().to_set() =~= s.to_set().remove(s.last()),
{
    let t = s.drop_last();
    assert forall|i: int, j: int| 0 <= i < j < t.len() implies before(#[trigger] t[i], #[trigger] t[j]) by {
        assert(t[i] == s[i] && t[j] == s[j]);
    }
    if t.contains(s.last()) {
        let i = choose|i: int| 0 <= i < t.len() && t[i] == s.last();
        assert(before(s[i], s[s.len() - 1]));
        before_irreflexive(s.last());
    }
    assert forall|x: Seq<char>| t.to_set().contains(x) == s.to_set().remove(s.last()).contains(x) by {
        if s.to_set().remove(s.last()).contains(x) {
            let i = choose|i: int| 0 <= i < s.len() && s[i] == x;
            assert(t[i] == x);
        }
        if t.to_set().contains(x) {
            let i = choose|i: int| 0 <= i < t.len() && t[i] == x;
            assert(s[i] == x);
        }
    }
}

/// A set of names has one order only.
pub proof fn ascending_unique(s: Seq<Seq<char>>, t: Seq<Seq<char>>)
    requires
        ascending(s),
        ascending(t),
        s.to_set() =~= t.to_set(),
    ensures
        s == t,
    decreases s.len(),
{
    if s.len() == 0 {
        if t.len() > 0 {
            assert(t.to_set().contains(t[0]));
            assert(s.to_set().contains(t[0]));
        }
        assert(s =~= t);
    } else {
        assert(s.to_set().contains(s.last()));
        assert(t.to_set().contains(s.last()));
        assert(t.len() > 0);
        assert(t.to_set().contains(t.last()));
        let i = choose|i: int| 0 <= i < t.len() && t[i] == s.last();
        assert(s.to_set().contains(t.last()));
        let j = choose|j: int| 0 <= j < s.len() && s[j] == t.last();
        if i < t.len() - 1 {
            assert(before(t[i], t[t.len() - 1]));
            if j < s.len() - 1 {
                assert(before(s[j], s[s.len() - 1]));
                before_transitive(s.last(), t.last(), s.last());
            }
            before_irreflexive(s.last());
        }
        assert(s.last() == t.last());
        lemma_ascending_drop_last(s);
        lemma_ascending_drop_last(t);
        ascending_unique(s.drop_last(), t.drop_last());
        assert(s =~= s.drop_last().push(s.last()));
        assert(t =~= t.drop_last().push(t.last()));
    }
}

/// An ascending list is the order of the names in it.
pub proof fn ascending_is_in_order(s: Seq<Seq<char>>)
    requires
        ascending(s),
    ensures
        in_order(s.to_set()) == s,
{
    assert(ascending(s) && s.to_set() =~= s.to_set());
    ascending_unique(in_order(s.to_set()), s);
}

/// No name stands twice in an ascending row.
pub proof fn lemma_ascending_distinct(s: Seq<Seq<char>>)
    requires
        ascending(s),
    ensures
        forall|i: int, j: int| 0 <= i < s.len() && 0 <= j < s.len() && s[i] == s[j] ==> i == j,
{
    assert forall|i: int, j: int| 0 <= i < s.len() && 0 <= j < s.len() && s[i] == s[j] implies i == j by {
        before_irreflexive(s[i]);
        if i < j {
            assert(before(s[i], s[j]));
        } else if j < i {
            assert(before(s[j], s[i]));
        }
    }
}

/// Every finite set of names has an order.
pub proof fn in_order_lists(names: Set<Seq<char>>)
    requires
        names.finite(),
    ensures
        ascending(in_order(names)),
        in_order(names).to_set() =~= names,
        forall|i: int| 0 <= i < in_order(names).len() ==> names.contains(#[trigger] in_order(names)[i]),
{
    lemma_order_exists(names);
    let s = in_order(names);
    assert forall|i: int| 0 <= i < s.len() implies names.contains(#[trigger] s[i]) by {
        assert(s.to_set().contains(s[i]));
    }
}

proof fn lemma_order_exists(names: Set<Seq<char>>)
    requires
        names.finite(),
    ensures
        exists|s: Seq<Seq<char>>| #[trigger] ascending(s) && s.to_set() =~= names,
    decreases names.len(),
{
    if names.len() == 0 {
        let s = Seq::<Seq<char>>::empty();
        assert(ascending(s) && s.to_set() =~= names);
    } else {
        let x = names.choose();
        lemma_order_exists(names.remove(x));
        let s = choose|s: Seq<Seq<char>>| #[trigger] ascending(s) && s.to_set() =~= names.remove(x);
        lemma_place_for(s, x);
    }
}

proof fn lemma_place_for(s: Seq<Seq<char>>, x: Seq<char>)
    requires
        ascending(s),
        !s.to_set().contains(x),
    ensures
        exists|t: Seq<Seq<char>>| #[trigger] ascending(t) && t.to_set() =~= s.to_set().insert(x),
    decreases s.len(),
{
    if s.len() == 0 {
        let t = seq![x];
        assert(t.to_set() =~= s.to_set().insert(x)) by {
            assert(t[0] == x);
        }
        assert(ascending(t));
    } else if before(s.last(), x) {
        let t = s.push(x);
        assert forall|i: int, j: int| 0 <= i < j < t.len() implies before(#[trigger] t[i], #[trigger] t[j]) by {
            if j == t.len() - 1 {
                if i < s.len() - 1 {
                    assert(before(s[i], s[s.len() - 1]));
                    before_transitive(s[i], s.last(), x);
                }
            } else {
                assert(before(s[i], s[j]));
            }
        }
        assert(t.to_set() =~= s.to_set().insert(x)) by {
            assert(t[t.len() - 1] == x);
            assert forall|y: Seq<char>| s.to_set().insert(x).contains(y) implies t.to_set().contains(y) by {
                if y != x {
                    let i = choose|i: int| 0 <= i < s.len() && s[i] == y;
                    assert(t[i] == y);
                }
            }
        }
        assert(ascending(t));
    } else {
        let front = s.drop_last();
        let l = s.last();
        assert(s[s.len() - 1] == l);
        assert(s.to_set().contains(l));
        before_total(l, x);
        lemma_ascending_drop_last(s);
        lemma_place_for(front, x);
        let t = choose|t: Seq<Seq<char>>| #[trigger] ascending(t) && t.to_set() =~= front.to_set().insert(x);
        assert forall|i: int| 0 <= i < t.len() implies before(#[trigger] t[i], l) by {
            assert(t.to_set().contains(t[i]));
            if t[i] != x {
                let k = choose|k: int| 0 <= k < front.len() && front[k] == t[i];
                assert(before(s[k], s[s.len() - 1]));
            }
        }
        let u = t.push(l);
        assert forall|i: int, j: int| 0 <= i < j < u.len() implies before(#[trigger] u[i], #[trigger] u[j]) by {
            if j < t.len() {
                assert(before(t[i], t[j]));
            } else {
                assert(before(t[i], l));
            }
        }
        assert(u.to_set() =~= s.to_set().insert(x)) by {
            assert(u[u.len() - 1] == l);
            assert forall|y: Seq<char>| s.to_set().insert(x).contains(y) implies u.to_set().contains(y) by {
                if y != l {
                    assert(t.to_set().contains(y));
                    let i = choose|i: int| 0 <= i < t.len() && t[i] == y;
                    assert(u[i] == y);
                }
            }
            assert forall|y: Seq<char>| u.to_set().contains(y) implies s.to_set().insert(x).contains(y) by {
                let i = choose|i: int| 0 <= i < u.len() && u[i] == y;
                if i < t.len() {
                    assert(t[i] == y);
                    assert(t.to_set().contains(y));
                }
            }
        }
        assert(ascending(u));
    }
}

pub fn text_before(a: &str, b: &str) -> (r: bool)
    ensures
        r == before(a@, b@),
{
    let av = chars_of(a);
    let bv = chars_of(b);
    let mut i: usize = 0;
    assert(a@.subrange(0, a@.len() as int) =~= a@);
    assert(b@.subrange(0, b@.len() as int) =~= b@);
    while i < av.len() && i < bv.len()
        invariant
            i <= av.len(),
            i <= bv.len(),
            av@ == a@,
            bv@ == b@,
            before(a@, b@) == before(
                a@.subrange(i as int, a@.len() as int),
                b@.subrange(i as int, b@.len() as int),
            ),
        decreases av.len() - i,
    {
        if av[i] != bv[i] {
            return av[i] < bv[i];
        }
        assert(a@.subrange(i as int, a@.len() as int).drop_first() =~= a@.subrange(i + 1, a@.len() as int));
        assert(b@.subrange(i as int, b@.len() as int).drop_first() =~= b@.subrange(i + 1, b@.len() as int));
        i = i + 1;
    }
    i < bv.len()
}

/// The names of a row of pairs.
pub open spec fn pair_keys<W>(pairs: Seq<(Seq<char>, W)>) -> Seq<Seq<char>> {
    pairs.map_values(|p: (Seq<char>, W)| p.0)
}

/// The map that a row of pairs spells out.
pub open spec fn pairs_map<W>(pairs: Seq<(Seq<char>, W)>) -> Map<Seq<char>, W>
    decreases pairs.len(),
{
    if pairs.len() == 0 {
        Map::empty()
    } else {
        pairs_map(pairs.drop_last()).insert(pairs.last().0, pairs.last().1)
    }
}

pub proof fn lemma_pairs_map<W>(pairs: Seq<(Seq<char>, W)>)
    requires
        ascending(pair_keys(pairs)),
    ensures
        pairs_map(pairs).dom() =~= pair_keys(pairs).to_set(),
        pairs_map(pairs).dom().finite(),
        pairs_map(pairs).dom().len() == pairs.len(),
        in_order(pairs_map(pairs).dom()) == pair_keys(pairs),
        forall|i: int|
            0 <= i < pairs.len() ==> pairs_map(pairs).contains_key((#[trigger] pairs[i]).0)
                && pairs_map(pairs)[pairs[i].0] == pairs[i].1,
        forall|k: Seq<char>| #[trigger]
            pairs_map(pairs).contains_key(k) ==> exists|i: int|
                0 <= i < pairs.len() && (#[trigger] pairs[i]).0 == k,
    decreases pairs.len(),
{
    let keys = pair_keys(pairs);
    if pairs.len() == 0 {
        assert(keys.to_set() =~= Set::<Seq<char>>::empty());
    } else {
        let front = pairs.drop_last();
        assert(pair_keys(front) =~= keys.drop_last());
        lemma_ascending_drop_last(keys);
        lemma_pairs_map(front);
        assert(keys.last() == pairs.last().0);
        assert(!pairs_map(front).contains_key(pairs.last().0));
        assert forall|i: int| 0 <= i < pairs.len() implies pairs_map(pairs).contains_key(
            (#[trigger] pairs[i]).0,
        ) && pairs_map(pairs)[pairs[i].0] == pairs[i].1 by {
            if i < front.len() {
                assert(front[i] == pairs[i]);
                assert(pairs_map(front).contains_key(front[i].0));
            }
        }
        assert forall|k: Seq<char>| #[trigger] pairs_map(pairs).contains_key(k) implies exists|i: int|
            0 <= i < pairs.len() && (#[trigger] pairs[i]).0 == k by {
            if k == pairs.last().0 {
                assert(pairs[pairs.len() - 1].0 == k);
            } else {
                assert(pairs_map(front).contains_key(k));
                let i = choose|i: int| 0 <= i < front.len() && (#[trigger] front[i]).0 == k;
                assert(pairs[i].0 == k);
            }
        }
        assert(keys.to_set() =~= keys.drop_last().to_set().insert(keys.last())) by {
            assert(keys.to_set().contains(keys.last()));
        }
    }
    ascending_is_in_order(keys);
}

/// A map keyed by names. Its entries stand in the order of their names, and no
/// name stands in it twice.
#[derive(Debug, PartialEq, Eq)]
pub struct NameMap<V> {
    entries: Vec<(String, V)>,
}

/// The names that entries are kept under.
spec fn entry_names<V>(entries: Seq<(String, V)>) -> Seq<Seq<char>> {
    entries.map_values(|e: (String, V)| e.0@)
}

impl<V> NameMap<V> {
    #[verifier::type_invariant]
    spec fn ordered(&self) -> bool {
        ascending(entry_names(self.entries@))
    }
}

impl<V: View> View for NameMap<V> {
    type V = Map<Seq<char>, V::V>;

    closed spec fn view(&self) -> Map<Seq<char>, V::V> {
        pairs_map(self.pairs())
    }
}

impl<V: View> NameMap<V> {
    /// The entries in the order of their names.
    pub closed spec fn pairs(&self) -> Seq<(Seq<char>, V::V)> {
        self.entries@.map_values(|e: (String, V)| (e.0@, e.1@))
    }

    /// What the entries and the map say of each other. It computes nothing.
    pub fn facts(&self)
        ensures
            ascending(pair_keys(self.pairs())),
            self@ == pairs_map(self.pairs()),
            self@.dom() =~= pair_keys(self.pairs()).to_set(),
            self@.dom().finite(),
            self@.dom().len() == self.pairs().len(),
            in_order(self@.dom()) == pair_keys(self.pairs()),
            forall|i: int|
                0 <= i < self.pairs().len() ==> self@.contains_key((#[trigger] self.pairs()[i]).0)
                    && self@[self.pairs()[i].0] == self.pairs()[i].1,
            forall|k: Seq<char>| #[trigger]
                self@.contains_key(k) ==> exists|i: int|
                    0 <= i < self.pairs().len() && (#[trigger] self.pairs()[i]).0 == k,
    {
        proof {
            use_type_invariant(self);
            assert(pair_keys(self.pairs()) =~= entry_names(self.entries@));
            lemma_pairs_map(self.pairs());
        }
    }

    pub fn new() -> (r: Self)
        ensures
            r@ == Map::<Seq<char>, V::V>::empty(),
            r.pairs() == Seq::<(Seq<char>, V::V)>::empty(),
    {
        let entries: Vec<(String, V)> = Vec::new();
        assert(entry_names(entries@) =~= Seq::<Seq<char>>::empty());
        let r = NameMap { entries };
        assert(r.pairs() =~= Seq::<(Seq<char>, V::V)>::empty());
        r
    }

    pub fn len(&self) -> (r: usize)
        ensures
            r == self.pairs().len(),
            r == self@.dom().len(),
    {
        self.facts();
        self.entries.len()
    }

    pub fn key_at(&self, i: usize) -> (r: &String)
        requires
            i < self.pairs().len(),
        ensures
            r@ == self.pairs()[i as int].0,
    {
        &self.entries[i].0
    }

    pub fn value_at(&self, i: usize) -> (r: &V)
        requires
            i < self.pairs().len(),
        ensures
            r@ == self.pairs()[i as int].1,
    {
        &self.entries[i].1
    }

    /// The value kept under `key`.
    pub fn get(&self, key: &str) -> (r: Option<&V>)
        ensures
            r is Some <==> self@.contains_key(key@),
            r matches Some(v) ==> v@ == self@[key@],
    {
        self.facts();
        let mut i: usize = 0;
        while i < self.entries.len()
            invariant
                i <= self.entries.len(),
                self.entries.len() == self.pairs().len(),
                forall|k: int| 0 <= k < i ==> (#[trigger] self.pairs()[k]).0 != key@,
                forall|k: int|
                    0 <= k < self.pairs().len() ==> self@.contains_key((#[trigger] self.pairs()[k]).0)
                        && self@[self.pairs()[k].0] == self.pairs()[k].1,
            decreases self.entries.len() - i,
        {
            let e = &self.entries[i];
            assert(self.pairs()[i as int] == (e.0@, e.1@));
            assert(self.pairs()[i as int].0 == e.0@);
            if same_text(e.0.as_str(), key) {
                return Some(&e.1);
            }
            i = i + 1;
        }
        None
    }

    pub fn contains_key(&self, key: &str) -> (r: bool)
        ensures
            r == self@.contains_key(key@),
    {
        self.get(key).is_some()
    }

    /// The names, in order.
    pub fn keys(&self) -> (r: Vec<String>)
        ensures
            texts(r@) == in_order(self@.dom()),
            texts(r@) == pair_keys(self.pairs()),
    {
        self.facts();
        let mut out: Vec<String> = Vec::new();
        let mut i: usize = 0;
        while i < self.entries.len()
            invariant
                i <= self.entries.len(),
                self.entries.len() == self.pairs().len(),
                texts(out@) == pair_keys(self.pairs()).subrange(0, i as int),
            decreases self.entries.len() - i,
        {
            assert(self.pairs()[i as int] == (self.entries@[i as int].0@, self.entries@[i as int].1@));
            let ghost prev = out@;
            out.push(self.entries[i].0.clone());
            assert(texts(out@) =~= texts(prev).push(self.pairs()[i as int].0));
            i = i + 1;
            assert(texts(out@) =~= pair_keys(self.pairs()).subrange(0, i as int));
        }
        assert(texts(out@) =~= pair_keys(self.pairs()));
        out
    }

    /// The map with `value` under `key`, in place of what stood there.
    pub fn put(self, key: String, value: V) -> (r: Self)
        ensures
            r@ == self@.insert(key@, value@),
    {
        self.facts();
        let ghost whole = self@;
        let ghost old_pairs = self.pairs();
        let mut entries = self.entries;
        let n: usize = entries.len();
        let mut i: usize = 0;
        while i < n && text_before(entries[i].0.as_str(), key.as_str())
            invariant
                i <= n,
                n == entries.len(),
                n == old_pairs.len(),
                entries@.map_values(|e: (String, V)| (e.0@, e.1@)) == old_pairs,
                forall|k: int| 0 <= k < i ==> before((#[trigger] old_pairs[k]).0, key@),
            decreases n - i,
        {
            assert(old_pairs[i as int].0 == entries@[i as int].0@);
            i = i + 1;
        }
        let ghost kk = key@;
        let ghost vv = value@;
        let hit = i < n && same_text(entries[i].0.as_str(), key.as_str());
        if hit {
            assert(old_pairs[i as int].0 == entries@[i as int].0@);
            entries[i] = (key, value);
            let ghost new_pairs = entries@.map_values(|e: (String, V)| (e.0@, e.1@));
            proof {
                assert(new_pairs =~= old_pairs.update(i as int, (kk, vv)));
                assert(pair_keys(new_pairs) =~= pair_keys(old_pairs));
                lemma_pairs_map(new_pairs);
                lemma_put_over(old_pairs, i as int, vv);
                assert(entry_names(entries@) =~= pair_keys(new_pairs));
            }
            NameMap { entries }
        } else {
            entries.insert(i, (key, value));
            let ghost new_pairs = entries@.map_values(|e: (String, V)| (e.0@, e.1@));
            proof {
                assert(new_pairs =~= old_pairs.insert(i as int, (kk, vv)));
                if i < n {
                    before_total(old_pairs[i as int].0, kk);
                }
                lemma_put_between(old_pairs, i as int, kk, vv);
                assert(entry_names(entries@) =~= pair_keys(new_pairs));
            }
            NameMap { entries }
        }
    }

    /// The map without an entry under `key`.
    pub fn without(self, key: &str) -> (r: Self)
        ensures
            r@ == self@.remove(key@),
    {
        self.taken(key).0
    }
}

proof fn lemma_put_over<W>(pairs: Seq<(Seq<char>, W)>, i: int, v: W)
    requires
        ascending(pair_keys(pairs)),
        0 <= i < pairs.len(),
    ensures
        pairs_map(pairs.update(i, (pairs[i].0, v))) == pairs_map(pairs).insert(pairs[i].0, v),
{
    let next = pairs.update(i, (pairs[i].0, v));
    assert(pair_keys(next) =~= pair_keys(pairs));
    lemma_pairs_map(pairs);
    lemma_pairs_map(next);
    let m = pairs_map(pairs).insert(pairs[i].0, v);
    assert forall|k: Seq<char>| pairs_map(next).contains_key(k) implies pairs_map(next)[k] == m[k] by {
        let j = choose|j: int| 0 <= j < next.len() && (#[trigger] next[j]).0 == k;
        assert(next[j].0 == pairs[j].0);
        if j != i {
            assert(pair_keys(pairs)[j] == pairs[j].0 && pair_keys(pairs)[i] == pairs[i].0);
            if pairs[j].0 == pairs[i].0 {
                before_irreflexive(pairs[i].0);
            }
        }
    }
    assert(pairs_map(next) =~= m);
}

proof fn lemma_put_between<W>(pairs: Seq<(Seq<char>, W)>, i: int, k: Seq<char>, v: W)
    requires
        ascending(pair_keys(pairs)),
        0 <= i <= pairs.len(),
        forall|j: int| 0 <= j < i ==> before((#[trigger] pairs[j]).0, k),
        i < pairs.len() ==> before(k, pairs[i].0),
    ensures
        ascending(pair_keys(pairs.insert(i, (k, v)))),
        pairs_map(pairs.insert(i, (k, v))) == pairs_map(pairs).insert(k, v),
{
    let next = pairs.insert(i, (k, v));
    let keys = pair_keys(pairs);
    assert forall|a: int, b: int| 0 <= a < b < next.len() implies before(
        #[trigger] pair_keys(next)[a],
        #[trigger] pair_keys(next)[b],
    ) by {
        let a0 = if a < i { a } else { a - 1 };
        let b0 = if b < i { b } else { b - 1 };
        if a != i && b != i {
            assert(before(keys[a0], keys[b0]));
            assert(pair_keys(next)[a] == keys[a0]);
            assert(pair_keys(next)[b] == keys[b0]);
        } else if b == i {
            assert(pairs[a].0 == pair_keys(next)[a]);
        } else {
            assert(pair_keys(next)[b] == keys[b0]);
            assert(pairs[b0].0 == keys[b0]);
            if b0 > i {
                assert(before(keys[i], keys[b0]));
                before_transitive(k, keys[i], keys[b0]);
            }
        }
    }
    lemma_pairs_map(pairs);
    lemma_pairs_map(next);
    let m = pairs_map(pairs).insert(k, v);
    assert(next[i] == (k, v));
    assert forall|x: Seq<char>| pairs_map(next).contains_key(x) == m.contains_key(x) by {
        if pairs_map(next).contains_key(x) {
            let j = choose|j: int| 0 <= j < next.len() && (#[trigger] next[j]).0 == x;
            if j < i {
                assert(next[j] == pairs[j]);
            } else if j > i {
                assert(next[j] == pairs[j - 1]);
            }
        }
        if m.contains_key(x) {
            if x == k {
                assert(next[i].0 == k);
            } else {
                let j = choose|j: int| 0 <= j < pairs.len() && (#[trigger] pairs[j]).0 == x;
                if j < i {
                    assert(next[j] == pairs[j]);
                } else {
                    assert(next[j + 1] == pairs[j]);
                }
            }
        }
    }
    assert forall|x: Seq<char>| pairs_map(next).contains_key(x) implies pairs_map(next)[x] == m[x] by {
        if x == k {
            assert(next[i].0 == k);
        } else {
            let j = choose|j: int| 0 <= j < pairs.len() && (#[trigger] pairs[j]).0 == x;
            if j < i {
                assert(next[j] == pairs[j]);
            } else {
                assert(next[j + 1] == pairs[j]);
            }
        }
    }
    assert(pairs_map(next) =~= m);
}

proof fn lemma_remove_at<W>(pairs: Seq<(Seq<char>, W)>, i: int)
    requires
        ascending(pair_keys(pairs)),
        0 <= i < pairs.len(),
    ensures
        ascending(pair_keys(pairs.remove(i))),
        pairs_map(pairs.remove(i)) == pairs_map(pairs).remove(pairs[i].0),
{
    let next = pairs.remove(i);
    let keys = pair_keys(pairs);
    let gone = pairs[i].0;
    assert forall|a: int, b: int| 0 <= a < b < next.len() implies before(
        #[trigger] pair_keys(next)[a],
        #[trigger] pair_keys(next)[b],
    ) by {
        let a0 = if a < i { a } else { a + 1 };
        let b0 = if b < i { b } else { b + 1 };
        assert(before(keys[a0], keys[b0]));
    }
    lemma_pairs_map(pairs);
    lemma_pairs_map(next);
    let m = pairs_map(pairs).remove(gone);
    assert forall|x: Seq<char>| pairs_map(next).contains_key(x) == m.contains_key(x) by {
        if pairs_map(next).contains_key(x) {
            let j = choose|j: int| 0 <= j < next.len() && (#[trigger] next[j]).0 == x;
            let j0 = if j < i { j } else { j + 1 };
            assert(next[j] == pairs[j0]);
            assert(keys[j0] == x && keys[i] == gone);
            if x == gone {
                before_irreflexive(x);
            }
        }
        if m.contains_key(x) {
            let j = choose|j: int| 0 <= j < pairs.len() && (#[trigger] pairs[j]).0 == x;
            let j0 = if j < i { j } else { j - 1 };
            assert(next[j0] == pairs[j]);
        }
    }
    assert forall|x: Seq<char>| pairs_map(next).contains_key(x) implies pairs_map(next)[x] == m[x] by {
        let j = choose|j: int| 0 <= j < next.len() && (#[trigger] next[j]).0 == x;
        let j0 = if j < i { j } else { j + 1 };
        assert(next[j] == pairs[j0]);
        assert(pairs_map(pairs)[pairs[j0].0] == pairs[j0].1);
        assert(m.contains_key(x));
    }
    assert(pairs_map(next) =~= m);
}

impl<V: View> NameMap<V> {
    /// The map without an entry under `key`, and the value that stood there.
    pub fn taken(self, key: &str) -> (r: (Self, Option<V>))
        ensures
            r.0@ == self@.remove(key@),
            r.1 is Some <==> self@.contains_key(key@),
            r.1 matches Some(v) ==> v@ == self@[key@],
    {
        self.facts();
        let ghost old_pairs = self.pairs();
        let mut entries = self.entries;
        let n: usize = entries.len();
        let mut i: usize = 0;
        while i < n && !same_text(entries[i].0.as_str(), key)
            invariant
                i <= n,
                n == entries.len(),
                n == old_pairs.len(),
                entries@.map_values(|e: (String, V)| (e.0@, e.1@)) == old_pairs,
                forall|k: int| 0 <= k < i ==> (#[trigger] old_pairs[k]).0 != key@,
            decreases n - i,
        {
            assert(old_pairs[i as int].0 == entries@[i as int].0@);
            i = i + 1;
        }
        let mut gone: Option<V> = None;
        if i < n {
            assert(old_pairs[i as int].0 == entries@[i as int].0@);
            assert(old_pairs[i as int].1 == entries@[i as int].1@);
            let e = entries.remove(i);
            gone = Some(e.1);
            let ghost new_pairs = entries@.map_values(|e: (String, V)| (e.0@, e.1@));
            proof {
                assert(new_pairs =~= old_pairs.remove(i as int));
                lemma_remove_at(old_pairs, i as int);
            }
        } else {
            assert(pairs_map(old_pairs).remove(key@) =~= pairs_map(old_pairs));
        }
        assert(entry_names(entries@) =~= pair_keys(entries@.map_values(|e: (String, V)| (e.0@, e.1@))));
        (NameMap { entries }, gone)
    }
}

impl<V: Replica> NameMap<V> {
    pub fn copied(&self) -> (r: Self)
        ensures
            r@ == self@,
            r.pairs() == self.pairs(),
    {
        self.facts();
        let mut entries: Vec<(String, V)> = Vec::new();
        let mut i: usize = 0;
        while i < self.entries.len()
            invariant
                i <= self.entries.len(),
                self.entries.len() == self.pairs().len(),
                entries@.map_values(|e: (String, V)| (e.0@, e.1@)) == self.pairs().subrange(0, i as int),
            decreases self.entries.len() - i,
        {
            let e = &self.entries[i];
            let v = e.1.replica();
            assert(self.pairs()[i as int] == (e.0@, e.1@));
            let ghost prev = entries@.map_values(|e: (String, V)| (e.0@, e.1@));
            entries.push((e.0.clone(), v));
            assert(entries@.map_values(|e: (String, V)| (e.0@, e.1@)) =~= prev.push(self.pairs()[i as int]));
            i = i + 1;
            assert(entries@.map_values(|e: (String, V)| (e.0@, e.1@)) =~= self.pairs().subrange(0, i as int));
        }
        assert(self.pairs().subrange(0, i as int) =~= self.pairs());
        assert(entry_names(entries@) =~= pair_keys(self.pairs()));
        NameMap { entries }
    }
}

impl<V: Replica> Replica for NameMap<V> {
    fn replica(&self) -> (r: Self) {
        self.copied()
    }
}

/// Names are ordered as words are: by the first character in which they differ, and where
/// one is the beginning of the other it comes first.
pub proof fn names_are_ordered_as_words(a: Seq<char>, b: Seq<char>, x: char, y: char, rest: Seq<char>, more: Seq<char>)
    ensures
        x < y ==> before(a + seq![x] + rest, a + seq![y] + more) && !before(a + seq![y] + more, a + seq![x] + rest),
        b.len() > 0 ==> before(a, a + b),
        !before(a, a),
    decreases a.len(),
{
    before_irreflexive(a);
    if a.len() > 0 {
        let t = a.drop_first();
        names_are_ordered_as_words(t, b, x, y, rest, more);
        assert((a + seq![x] + rest).drop_first() =~= t + seq![x] + rest);
        assert((a + seq![y] + more).drop_first() =~= t + seq![y] + more);
        assert((a + b).drop_first() =~= t + b);
    } else {
        assert((a + seq![x] + rest)[0] == x);
        assert((a + seq![y] + more)[0] == y);
    }
}

} // verus!
