//! The order of strings, and a map that is keyed by strings and keeps that order.

use vstd::prelude::*;
use vstd::string::*;

use crate::text::{chars_of, same};

verus! {

/// Whether `a` comes before `b`: the order of the first characters that differ,
/// a proper prefix coming first.
pub open spec fn before(a: Seq<char>, b: Seq<char>) -> bool
    decreases a.len(),
{
    if b.len() == 0 {
        false
    } else if a.len() == 0 {
        true
    } else if a[0] != b[0] {
        a[0] < b[0]
    } else {
        before(a.drop_first(), b.drop_first())
    }
}

/// Nothing comes before itself.
pub proof fn lemma_before_irreflexive(a: Seq<char>)
    ensures
        !before(a, a),
    decreases a.len(),
{
    if a.len() > 0 {
        lemma_before_irreflexive(a.drop_first());
    }
}

/// `before` is transitive.
pub proof fn lemma_before_transitive(a: Seq<char>, b: Seq<char>, c: Seq<char>)
    requires
        before(a, b),
        before(b, c),
    ensures
        before(a, c),
    decreases a.len(),
{
    if a.len() > 0 && a[0] == b[0] && b[0] == c[0] {
        lemma_before_transitive(a.drop_first(), b.drop_first(), c.drop_first());
    }
}

/// Of two different strings one comes before the other.
pub proof fn lemma_before_total(a: Seq<char>, b: Seq<char>)
    ensures
        a == b || before(a, b) || before(b, a),
    decreases a.len(),
{
    if a.len() > 0 && b.len() > 0 && a[0] == b[0] {
        lemma_before_total(a.drop_first(), b.drop_first());
        if a.drop_first() == b.drop_first() {
            assert(a =~= seq![a[0]] + a.drop_first());
            assert(b =~= seq![b[0]] + b.drop_first());
        }
    } else if a.len() == 0 && b.len() == 0 {
        assert(a =~= b);
    }
}

/// Of two strings not both come before the other.
pub proof fn lemma_before_asymmetric(a: Seq<char>, b: Seq<char>)
    requires
        before(a, b),
    ensures
        !before(b, a),
        a != b,
{
    lemma_before_irreflexive(a);
    if before(b, a) {
        lemma_before_transitive(a, b, a);
    }
}

/// A shared prefix does not decide the order.
proof fn lemma_before_skip(a: Seq<char>, b: Seq<char>, n: int)
    requires
        0 <= n <= a.len(),
        n <= b.len(),
        a.take(n) == b.take(n),
    ensures
        before(a, b) == before(a.skip(n), b.skip(n)),
    decreases n,
{
    if n > 0 {
        assert(a[0] == a.take(n)[0] && b[0] == b.take(n)[0]);
        assert(a.drop_first().take(n - 1) =~= a.take(n).drop_first());
        assert(b.drop_first().take(n - 1) =~= b.take(n).drop_first());
        lemma_before_skip(a.drop_first(), b.drop_first(), n - 1);
        assert(a.drop_first().skip(n - 1) =~= a.skip(n));
        assert(b.drop_first().skip(n - 1) =~= b.skip(n));
    } else {
        assert(a.skip(0) =~= a);
        assert(b.skip(0) =~= b);
    }
}

/// Whether `a` comes before `b`.
pub fn comes_before(a: &str, b: &str) -> (less: bool)
    ensures
        less == before(a@, b@),
{
    let a_chars = chars_of(a);
    let b_chars = chars_of(b);
    let mut i: usize = 0;
    while i < a_chars.len() && i < b_chars.len()
        invariant
            a_chars@ == a@,
            b_chars@ == b@,
            i <= a@.len(),
            i <= b@.len(),
            a@.take(i as int) == b@.take(i as int),
        decreases a@.len() - i,
    {
        if a_chars[i] != b_chars[i] {
            proof {
                lemma_before_skip(a@, b@, i as int);
            }
            return a_chars[i] < b_chars[i];
        }
        i += 1;
        assert(a@.take(i as int) =~= a@.take(i - 1).push(a@[i - 1]));
        assert(b@.take(i as int) =~= b@.take(i - 1).push(b@[i - 1]));
    }
    proof {
        lemma_before_skip(a@, b@, i as int);
    }
    i < b_chars.len()
}

/// Whether each of `keys` comes before all that follow it.
pub open spec fn ascending(keys: Seq<Seq<char>>) -> bool {
    forall|i: int, j: int| 0 <= i < j < keys.len() ==> before(#[trigger] keys[i], #[trigger] keys[j])
}

/// Whether `keys` lists the members of `dom` in order.
pub open spec fn lists_in_order(keys: Seq<Seq<char>>, dom: Set<Seq<char>>) -> bool {
    ascending(keys) && forall|k: Seq<char>| #[trigger] dom.contains(k) <==> keys.contains(k)
}

/// There is only one way to list a set in order.
pub proof fn law_order_is_unique(a: Seq<Seq<char>>, b: Seq<Seq<char>>, dom: Set<Seq<char>>)
    requires
        lists_in_order(a, dom),
        lists_in_order(b, dom),
    ensures
        a == b,
    decreases a.len(),
{
    if a.len() == 0 {
        if b.len() > 0 {
            assert(b.contains(b[0]));
            assert(dom.contains(b[0]));
            assert(a.contains(b[0]));
        }
        assert(a =~= b);
    } else {
        assert(a.contains(a[0]));
        assert(dom.contains(a[0]));
        assert(b.contains(a[0]));
        assert(b.contains(b[0]));
        assert(dom.contains(b[0]));
        assert(a.contains(b[0]));
        let i = choose|i: int| 0 <= i < b.len() && b[i] == a[0];
        let j = choose|j: int| 0 <= j < a.len() && a[j] == b[0];
        if i > 0 && j > 0 {
            assert(before(b[0], b[i]));
            assert(before(a[0], a[j]));
            lemma_before_asymmetric(a[0], b[0]);
        }
        assert(a[0] == b[0]);
        let rest_dom = dom.remove(a[0]);
        lemma_tail_lists(a, dom);
        lemma_tail_lists(b, dom);
        law_order_is_unique(a.drop_first(), b.drop_first(), rest_dom);
        assert(a =~= seq![a[0]] + a.drop_first());
        assert(b =~= seq![b[0]] + b.drop_first());
    }
}

/// Without its first member, a list lists the rest.
proof fn lemma_tail_lists(keys: Seq<Seq<char>>, dom: Set<Seq<char>>)
    requires
        lists_in_order(keys, dom),
        keys.len() > 0,
    ensures
        lists_in_order(keys.drop_first(), dom.remove(keys[0])),
{
    let rest = keys.drop_first();
    assert forall|i: int, j: int| 0 <= i < j < rest.len() implies before(#[trigger] rest[i], #[trigger] rest[j]) by {
        assert(rest[i] == keys[i + 1] && rest[j] == keys[j + 1]);
    }
    assert forall|k: Seq<char>| #[trigger] dom.remove(keys[0]).contains(k) <==> rest.contains(k) by {
        if dom.remove(keys[0]).contains(k) {
            assert(keys.contains(k));
            let i = choose|i: int| 0 <= i < keys.len() && keys[i] == k;
            assert(rest[i - 1] == k);
        }
        if rest.contains(k) {
            let i = choose|i: int| 0 <= i < rest.len() && rest[i] == k;
            assert(keys[i + 1] == k);
            assert(keys.contains(k));
            assert(dom.contains(k));
            lemma_before_asymmetric(keys[0], keys[i + 1]);
        }
    }
}

/// Whether one list of strings comes before another: the order of the first strings
/// that differ, a proper prefix coming first.
pub open spec fn list_before(a: Seq<Seq<char>>, b: Seq<Seq<char>>) -> bool
    decreases a.len(),
{
    if b.len() == 0 {
        false
    } else if a.len() == 0 {
        true
    } else if a[0] != b[0] {
        before(a[0], b[0])
    } else {
        list_before(a.drop_first(), b.drop_first())
    }
}

/// Nothing comes before itself.
pub proof fn lemma_list_before_irreflexive(a: Seq<Seq<char>>)
    ensures
        !list_before(a, a),
    decreases a.len(),
{
    if a.len() > 0 {
        lemma_list_before_irreflexive(a.drop_first());
    }
}

/// `list_before` is transitive.
pub proof fn lemma_list_before_transitive(a: Seq<Seq<char>>, b: Seq<Seq<char>>, c: Seq<Seq<char>>)
    requires
        list_before(a, b),
        list_before(b, c),
    ensures
        list_before(a, c),
    decreases a.len(),
{
    if a.len() > 0 {
        if a[0] == b[0] && b[0] == c[0] {
            lemma_list_before_transitive(a.drop_first(), b.drop_first(), c.drop_first());
        } else if a[0] != b[0] && b[0] != c[0] {
            lemma_before_transitive(a[0], b[0], c[0]);
            lemma_before_asymmetric(a[0], c[0]);
        }
    }
}

/// Of two different lists one comes before the other.
pub proof fn lemma_list_before_total(a: Seq<Seq<char>>, b: Seq<Seq<char>>)
    ensures
        a == b || list_before(a, b) || list_before(b, a),
    decreases a.len(),
{
    if a.len() > 0 && b.len() > 0 {
        if a[0] == b[0] {
            lemma_list_before_total(a.drop_first(), b.drop_first());
            if a.drop_first() == b.drop_first() {
                assert(a =~= seq![a[0]] + a.drop_first());
                assert(b =~= seq![b[0]] + b.drop_first());
            }
        } else {
            lemma_before_total(a[0], b[0]);
        }
    } else if a.len() == 0 && b.len() == 0 {
        assert(a =~= b);
    }
}

/// Whether one list of strings comes before another.
pub fn list_comes_before(a: &Vec<String>, b: &Vec<String>) -> (less: bool)
    ensures
        less == list_before(a.deep_view(), b.deep_view()),
{
    let ghost all_a = a.deep_view();
    let ghost all_b = b.deep_view();
    let mut i: usize = 0;
    assert(all_a.skip(0) =~= all_a);
    assert(all_b.skip(0) =~= all_b);
    while i < a.len() && i < b.len()
        invariant
            all_a == a.deep_view(),
            all_b == b.deep_view(),
            i <= a@.len(),
            i <= b@.len(),
            list_before(all_a, all_b) == list_before(all_a.skip(i as int), all_b.skip(i as int)),
        decreases a@.len() - i,
    {
        assert(all_a.skip(i as int)[0] == a@[i as int]@);
        assert(all_b.skip(i as int)[0] == b@[i as int]@);
        assert(all_a.skip(i as int).drop_first() =~= all_a.skip(i + 1));
        assert(all_b.skip(i as int).drop_first() =~= all_b.skip(i + 1));
        if !same(a[i].as_str(), b[i].as_str()) {
            return comes_before(a[i].as_str(), b[i].as_str());
        }
        i += 1;
    }
    i < b.len()
}

/// A map from strings to values whose entries are kept in the order of their keys.
#[derive(Debug)]
pub struct StringMap<V> {
    entries: Vec<(String, V)>,
}

/// The keys of a list of entries.
spec fn entry_keys<V>(entries: Seq<(String, V)>) -> Seq<Seq<char>> {
    Seq::new(entries.len(), |i: int| entries[i].0@)
}

/// The map that a list of entries stands for.
spec fn entry_map<V>(entries: Seq<(String, V)>) -> Map<Seq<char>, V>
    decreases entries.len(),
{
    if entries.len() == 0 {
        Map::empty()
    } else {
        entry_map(entries.drop_last()).insert(entries.last().0@, entries.last().1)
    }
}

/// Where the keys ascend, the map holds exactly the entries.
proof fn lemma_entry_map<V>(entries: Seq<(String, V)>)
    requires
        ascending(entry_keys(entries)),
    ensures
        forall|k: Seq<char>|
            #[trigger] entry_map(entries).dom().contains(k) <==> entry_keys(entries).contains(k),
        forall|i: int|
            0 <= i < entries.len() ==> entry_map(entries)[(#[trigger] entries[i]).0@] == entries[i].1,
        entry_map(entries).dom().finite(),
        entry_map(entries).len() == entries.len(),
    decreases entries.len(),
{
    if entries.len() > 0 {
        let front = entries.drop_last();
        let keys = entry_keys(entries);
        assert(entry_keys(front) =~= keys.drop_last());
        lemma_entry_map(front);
        assert forall|i: int| 0 <= i < front.len() implies keys[i] != keys.last() by {
            lemma_before_asymmetric(keys[i], keys[keys.len() - 1]);
        }
        assert(!entry_keys(front).contains(keys.last()));
        assert forall|k: Seq<char>| #[trigger] entry_map(entries).dom().contains(k) implies keys.contains(k) by {
            if k == keys.last() {
                assert(keys[keys.len() - 1] == k);
            } else {
                assert(entry_map(front).dom().contains(k));
                let i = choose|i: int| 0 <= i < entry_keys(front).len() && entry_keys(front)[i] == k;
                assert(keys[i] == k);
            }
        }
        assert forall|k: Seq<char>| keys.contains(k) implies #[trigger] entry_map(entries).dom().contains(k) by {
            let i = choose|i: int| 0 <= i < keys.len() && keys[i] == k;
            if i < keys.len() - 1 {
                assert(entry_keys(front)[i] == k);
                assert(entry_map(front).dom().contains(k));
            }
        }
        assert forall|i: int| 0 <= i < entries.len() implies entry_map(entries)[(#[trigger] entries[i]).0@]
            == entries[i].1 by {
            if i < entries.len() - 1 {
                assert(front[i] == entries[i]);
                assert(keys[i] != keys.last());
            }
        }
    }
}

impl<V> View for StringMap<V> {
    type V = Map<Seq<char>, V>;

    closed spec fn view(&self) -> Map<Seq<char>, V> {
        entry_map(self.entries@)
    }
}

impl<V> StringMap<V> {
    #[verifier::type_invariant]
    spec fn sorted(self) -> bool {
        ascending(entry_keys(self.entries@))
    }

    /// The keys, in order.
    pub closed spec fn keys(&self) -> Seq<Seq<char>> {
        entry_keys(self.entries@)
    }

    /// The map without entries.
    pub fn new() -> (map: Self)
        ensures
            map@ == Map::<Seq<char>, V>::empty(),
            map.keys() == Seq::<Seq<char>>::empty(),
    {
        let map = StringMap { entries: Vec::new() };
        assert(map.keys() =~= Seq::<Seq<char>>::empty());
        map
    }

    /// How many entries there are.
    pub fn len(&self) -> (count: usize)
        ensures
            count == self.keys().len(),
            count == self@.len(),
            self@.dom().finite(),
            ascending(self.keys()),
            forall|k: Seq<char>| #[trigger] self@.dom().contains(k) <==> self.keys().contains(k),
    {
        proof {
            use_type_invariant(self);
            lemma_entry_map(self.entries@);
        }
        self.entries.len()
    }

    /// The key at position `i`, in order.
    pub fn key_at(&self, i: usize) -> (key: &String)
        requires
            i < self.keys().len(),
        ensures
            key@ == self.keys()[i as int],
            self@.dom().contains(key@),
    {
        proof {
            use_type_invariant(self);
            lemma_entry_map(self.entries@);
            assert(self.keys().contains(self.keys()[i as int]));
        }
        &self.entries[i].0
    }

    /// The value at position `i`, in the order of the keys.
    pub fn value_at(&self, i: usize) -> (value: &V)
        requires
            i < self.keys().len(),
        ensures
            *value == self@[self.keys()[i as int]],
    {
        proof {
            use_type_invariant(self);
            lemma_entry_map(self.entries@);
            assert(self.entries@[i as int].0@ == self.keys()[i as int]);
        }
        &self.entries[i].1
    }

    /// The value under `key`.
    pub fn get(&self, key: &str) -> (value: Option<&V>)
        ensures
            match value {
                Some(v) => self@.dom().contains(key@) && *v == self@[key@],
                None => !self@.dom().contains(key@),
            },
    {
        proof {
            use_type_invariant(self);
            lemma_entry_map(self.entries@);
        }
        let mut i: usize = 0;
        while i < self.entries.len()
            invariant
                i <= self.entries@.len(),
                forall|j: int| 0 <= j < i ==> #[trigger] self.keys()[j] != key@,
            decreases self.entries@.len() - i,
        {
            if crate::text::same(self.entries[i].0.as_str(), key) {
                proof {
                    use_type_invariant(self);
                    lemma_entry_map(self.entries@);
                    assert(self.keys()[i as int] == key@);
                    assert(self.entries@[i as int].0@ == key@);
                }
                return Some(&self.entries[i].1);
            }
            assert(self.keys()[i as int] != key@);
            i += 1;
        }
        assert(!self.keys().contains(key@));
        None
    }

    /// Whether there is an entry under `key`.
    pub fn contains(&self, key: &str) -> (found: bool)
        ensures
            found == self@.dom().contains(key@),
    {
        self.get(key).is_some()
    }

    /// Puts `value` under `key`, in place of what was there.
    pub fn insert(&mut self, key: String, value: V)
        ensures
            final(self)@ == old(self)@.insert(key@, value),
    {
        proof {
            use_type_invariant(&*self);
        }
        let ghost before_entries = self.entries@;
        let mut entries: Vec<(String, V)> = Vec::new();
        std::mem::swap(&mut entries, &mut self.entries);
        let mut i: usize = 0;
        while i < entries.len() && comes_before(entries[i].0.as_str(), key.as_str())
            invariant
                i <= entries@.len(),
                entries@ == before_entries,
                forall|j: int| 0 <= j < i ==> before(#[trigger] entry_keys(entries@)[j], key@),
            decreases entries@.len() - i,
        {
            assert(entry_keys(entries@)[i as int] == entries@[i as int].0@);
            i += 1;
        }
        let ghost key_view = key@;
        let here = i < entries.len() && crate::text::same(entries[i].0.as_str(), key.as_str());
        if here {
            entries.remove(i);
        }
        entries.insert(i, (key, value));
        proof {
            lemma_insert_entry(before_entries, i as int, here, entries@, key_view, value);
        }
        self.entries = entries;
    }
}

impl<V> StringMap<V> {
    /// Takes all entries out, in the order of their keys.
    pub fn drain(&mut self) -> (entries: Vec<(String, V)>)
        ensures
            final(self)@ == Map::<Seq<char>, V>::empty(),
            entries@.len() == old(self).keys().len(),
            forall|i: int| 0 <= i < entries@.len() ==> (#[trigger] entries@[i]).0@ == old(self).keys()[i],
            forall|i: int|
                0 <= i < entries@.len() ==> (#[trigger] entries@[i]).1 == old(self)@[old(self).keys()[i]],
            ascending(old(self).keys()),
            forall|k: Seq<char>| #[trigger]
                old(self)@.dom().contains(k) <==> old(self).keys().contains(k),
    {
        proof {
            use_type_invariant(&*self);
            lemma_entry_map(self.entries@);
        }
        let ghost before_entries = self.entries@;
        let mut entries: Vec<(String, V)> = Vec::new();
        std::mem::swap(&mut entries, &mut self.entries);
        assert forall|i: int| 0 <= i < entries@.len() implies (#[trigger] entries@[i]).1 == old(self)@[old(
            self,
        ).keys()[i]] by {
            assert(before_entries[i].0@ == old(self).keys()[i]);
        }
        entries
    }
}

/// Inserting at the place that the order gives keeps the keys ascending and
/// changes the map at that key alone.
proof fn lemma_insert_entry<V>(
    old_entries: Seq<(String, V)>,
    at: int,
    replaces: bool,
    new_entries: Seq<(String, V)>,
    key: Seq<char>,
    value: V,
)
    requires
        ascending(entry_keys(old_entries)),
        0 <= at <= old_entries.len(),
        replaces ==> at < old_entries.len() && old_entries[at].0@ == key,
        !replaces && at < old_entries.len() ==> !before(old_entries[at].0@, key) && old_entries[at].0@
            != key,
        forall|j: int| 0 <= j < at ==> before(#[trigger] entry_keys(old_entries)[j], key),
        new_entries.len() == if replaces {
            old_entries.len()
        } else {
            old_entries.len() + 1
        },
        new_entries[at].0@ == key,
        new_entries[at].1 == value,
        forall|j: int| 0 <= j < at ==> new_entries[j] == old_entries[j],
        replaces ==> forall|j: int| at < j < new_entries.len() ==> new_entries[j] == old_entries[j],
        !replaces ==> forall|j: int| at < j < new_entries.len() ==> new_entries[j] == old_entries[j - 1],
    ensures
        ascending(entry_keys(new_entries)),
        entry_map(new_entries) == entry_map(old_entries).insert(key, value),
{
    let old_keys = entry_keys(old_entries);
    let new_keys = entry_keys(new_entries);
    assert forall|j: int| at < j < new_keys.len() implies before(key, #[trigger] new_keys[j]) by {
        if replaces {
            assert(new_keys[j] == old_keys[j]);
            assert(before(old_keys[at], old_keys[j]));
        } else {
            assert(new_keys[j] == old_keys[j - 1]);
            lemma_before_total(old_keys[at], key);
            assert(before(key, old_keys[at]));
            if j - 1 > at {
                assert(before(old_keys[at], old_keys[j - 1]));
                lemma_before_transitive(key, old_keys[at], old_keys[j - 1]);
            }
        }
    }
    assert forall|i: int, j: int| 0 <= i < j < new_keys.len() implies before(
        #[trigger] new_keys[i],
        #[trigger] new_keys[j],
    ) by {
        let shift: int = if replaces { 0 } else { 1 };
        if j < at {
            assert(new_keys[i] == old_keys[i] && new_keys[j] == old_keys[j]);
        } else if j == at {
            assert(new_keys[i] == old_keys[i]);
        } else if i < at {
            assert(new_keys[i] == old_keys[i] && new_keys[j] == old_keys[j - shift]);
            assert(before(old_keys[i], old_keys[j - shift]));
        } else if i == at {
            assert(before(key, new_keys[j]));
        } else {
            assert(new_keys[i] == old_keys[i - shift] && new_keys[j] == old_keys[j - shift]);
        }
    }
    lemma_entry_map(old_entries);
    lemma_entry_map(new_entries);
    let expected = entry_map(old_entries).insert(key, value);
    let shift: int = if replaces { 0 } else { 1 };
    assert forall|k: Seq<char>| #[trigger] entry_map(new_entries).dom().contains(k) <==> expected.dom().contains(k) by {
        if entry_map(new_entries).dom().contains(k) {
            assert(new_keys.contains(k));
            let i = choose|i: int| 0 <= i < new_keys.len() && new_keys[i] == k;
            if i < at {
                assert(old_keys[i] == k);
            } else if i > at {
                assert(old_keys[i - shift] == k);
            }
            if i != at {
                assert(old_keys.contains(k));
                assert(entry_map(old_entries).dom().contains(k));
            }
        }
        if expected.dom().contains(k) {
            if k == key {
                assert(new_keys[at] == k);
            } else {
                assert(entry_map(old_entries).dom().contains(k));
                assert(old_keys.contains(k));
                let i = choose|i: int| 0 <= i < old_keys.len() && old_keys[i] == k;
                if i < at {
                    assert(new_keys[i] == k);
                } else {
                    assert(new_keys[i + shift] == k);
                }
            }
            assert(new_keys.contains(k));
            assert(entry_map(new_entries).dom().contains(k));
        }
    }
    assert forall|k: Seq<char>| expected.dom().contains(k) implies #[trigger] entry_map(new_entries)[k]
        == expected[k] by {
        assert(entry_map(new_entries).dom().contains(k));
        assert(new_keys.contains(k));
        let i = choose|i: int| 0 <= i < new_keys.len() && new_keys[i] == k;
        assert(new_entries[i].0@ == k);
        assert(entry_map(new_entries)[new_entries[i].0@] == new_entries[i].1);
        if i == at {
            assert(k == key);
        } else {
            if i < at {
                lemma_before_asymmetric(new_keys[i], new_keys[at]);
                assert(old_entries[i].0@ == k);
                assert(entry_map(old_entries)[old_entries[i].0@] == old_entries[i].1);
            } else {
                lemma_before_asymmetric(new_keys[at], new_keys[i]);
                assert(old_entries[i - shift].0@ == k);
                assert(entry_map(old_entries)[old_entries[i - shift].0@] == old_entries[i - shift].1);
            }
        }
    }
    assert(entry_map(new_entries) =~= expected);
}

/// A map with the same texts under the same keys.
pub fn copy_texts(map: &StringMap<String>) -> (copy: StringMap<String>)
    ensures
        copy@.dom() == map@.dom(),
        forall|k: Seq<char>| #[trigger] map@.dom().contains(k) ==> copy@[k]@ == map@[k]@,
{
    let count = map.len();
    let mut copy: StringMap<String> = StringMap::new();
    let mut i: usize = 0;
    while i < count
        invariant
            count == map.keys().len(),
            i <= count,
            forall|k: Seq<char>| #[trigger] copy@.dom().contains(k) ==> map@.dom().contains(k) && copy@[k]@ == map@[k]@,
            forall|j: int| 0 <= j < i ==> copy@.dom().contains(#[trigger] map.keys()[j]),
        decreases count - i,
    {
        copy.insert(map.key_at(i).clone(), map.value_at(i).clone());
        i += 1;
    }
    assert forall|k: Seq<char>| map@.dom().contains(k) implies #[trigger] copy@.dom().contains(k) by {
        let j = choose|j: int| 0 <= j < map.keys().len() && map.keys()[j] == k;
        assert(map.keys().contains(k));
        assert(copy@.dom().contains(map.keys()[j]));
    }
    assert(copy@.dom() =~= map@.dom());
    copy
}

// ---------------------------------------------------------------------------
// Selections
// ---------------------------------------------------------------------------

/// Whether `kept` is what stands in `all` at `places`, which are, in order, the places that
/// `keep` says yes to.
pub open spec fn selected_at<T>(all: Seq<T>, keep: spec_fn(int) -> bool, kept: Seq<T>, places: Seq<int>) -> bool {
    &&& places.len() == kept.len()
    &&& forall|i: int, j: int| 0 <= i < j < places.len() ==> #[trigger] places[i] < #[trigger] places[j]
    &&& forall|i: int| 0 <= i < places.len() ==> 0 <= #[trigger] places[i] < all.len() && kept[i] == all[places[i]]
    &&& forall|k: int| 0 <= k < all.len() ==> #[trigger] keep(k) == places.contains(k)
}

/// Whether `kept` is those of `all` that `keep` says yes to, in order.
pub open spec fn selection<T>(all: Seq<T>, keep: spec_fn(int) -> bool, kept: Seq<T>) -> bool {
    exists|places: Seq<int>| #[trigger] selected_at(all, keep, kept, places)
}

/// Of nothing nothing is selected.
pub proof fn lemma_selection_empty<T>(keep: spec_fn(int) -> bool)
    ensures
        selection(Seq::<T>::empty(), keep, Seq::<T>::empty()),
{
    assert(selected_at(Seq::<T>::empty(), keep, Seq::<T>::empty(), Seq::empty()));
}

/// A selection of one more is that of the others, and that one where it is kept.
pub proof fn lemma_selection_push<T>(all: Seq<T>, keep: spec_fn(int) -> bool, kept: Seq<T>)
    requires
        all.len() > 0,
        selection(all.drop_last(), keep, kept),
    ensures
        selection(
            all,
            keep,
            if keep(all.len() - 1) {
                kept.push(all.last())
            } else {
                kept
            },
        ),
{
    let front = all.drop_last();
    let last = all.len() - 1;
    let at = choose|places: Seq<int>| #[trigger] selected_at(front, keep, kept, places);
    let (places, more) = if keep(last) {
        (at.push(last), kept.push(all.last()))
    } else {
        (at, kept)
    };
    assert forall|k: int| 0 <= k < all.len() implies #[trigger] keep(k) == places.contains(k) by {
        if k < last {
            assert(keep(k) == at.contains(k));
            if at.contains(k) {
                let i = choose|i: int| 0 <= i < at.len() && at[i] == k;
                assert(places[i] == k);
            }
            if places.contains(k) {
                let i = choose|i: int| 0 <= i < places.len() && places[i] == k;
                assert(at[i] == k);
            }
        } else if keep(last) {
            assert(places[at.len() as int] == last);
        } else if at.contains(last) {
            let i = choose|i: int| 0 <= i < at.len() && at[i] == last;
            assert(at[i] < front.len());
        }
    }
    assert forall|i: int| 0 <= i < places.len() implies 0 <= #[trigger] places[i] < all.len() && more[i]
        == all[places[i]] by {
        if i < at.len() {
            assert(at[i] < front.len());
            assert(front[at[i]] == all[at[i]]);
        }
    }
    assert forall|i: int, j: int| 0 <= i < j < places.len() implies #[trigger] places[i] < #[trigger] places[j] by {
        assert(at[i] < front.len());
        if j < at.len() {
            assert(at[i] < at[j]);
        }
    }
    assert(selected_at(all, keep, more, places));
}

// ---------------------------------------------------------------------------
// Laws of the order
// ---------------------------------------------------------------------------

/// Of two texts that begin alike the one with the smaller character at the first place where
/// they differ comes first, and a text comes before what begins with it.
pub proof fn law_the_first_difference_decides(
    common: Seq<char>,
    a: char,
    a_rest: Seq<char>,
    b: char,
    b_rest: Seq<char>,
)
    requires
        a != b,
    ensures
        before(common + seq![a] + a_rest, common + seq![b] + b_rest) == (a < b),
        before(common, common + seq![a] + a_rest),
    decreases common.len(),
{
    let left = common + seq![a] + a_rest;
    let right = common + seq![b] + b_rest;
    if common.len() == 0 {
        assert(left[0] == a && right[0] == b);
    } else {
        let rest = common.drop_first();
        law_the_first_difference_decides(rest, a, a_rest, b, b_rest);
        assert(left.drop_first() =~= rest + seq![a] + a_rest);
        assert(right.drop_first() =~= rest + seq![b] + b_rest);
    }
}

/// Lists that begin alike are ordered by the first members in which they differ, and a list
/// comes before what begins with it.
pub proof fn law_lists_are_ordered_by_their_members(common: Seq<Seq<char>>, a: Seq<char>, b: Seq<char>)
    requires
        a != b,
    ensures
        list_before(common.push(a), common.push(b)) == before(a, b),
        list_before(common, common.push(a)),
    decreases common.len(),
{
    if common.len() > 0 {
        let rest = common.drop_first();
        law_lists_are_ordered_by_their_members(rest, a, b);
        assert(common.push(a).drop_first() =~= rest.push(a));
        assert(common.push(b).drop_first() =~= rest.push(b));
        assert(common.push(a)[0] == common[0] && common.push(b)[0] == common[0]);
    } else {
        assert(common.push(a)[0] == a && common.push(b)[0] == b);
    }
}

} // verus!
