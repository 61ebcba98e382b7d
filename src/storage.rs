//! Storage of a component's properties: one per key, ordered by key, and a list of
//! properties that may repeat.

use vstd::prelude::*;

use crate::properties::{chars_of, same_chars, Property, PropertyModel};

verus! {

/// Lexicographic order of keys, character by character.
pub open spec fn key_lt(a: Seq<char>, b: Seq<char>) -> bool
    decreases a.len(),
{
    if a.len() == 0 {
        b.len() > 0
    } else if b.len() == 0 {
        false
    } else if a[0] != b[0] {
        a[0] < b[0]
    } else {
        key_lt(a.drop_first(), b.drop_first())
    }
}

proof fn lemma_key_lt_irreflexive(a: Seq<char>)
    ensures
        !key_lt(a, a),
    decreases a.len(),
{
    if a.len() > 0 {
        lemma_key_lt_irreflexive(a.drop_first());
    }
}

proof fn lemma_key_lt_transitive(a: Seq<char>, b: Seq<char>, c: Seq<char>)
    requires
        key_lt(a, b),
        key_lt(b, c),
    ensures
        key_lt(a, c),
    decreases a.len(),
{
    if a.len() > 0 && b.len() > 0 && c.len() > 0 && a[0] == b[0] && b[0] == c[0] {
        lemma_key_lt_transitive(a.drop_first(), b.drop_first(), c.drop_first());
    }
}

proof fn lemma_key_lt_total(a: Seq<char>, b: Seq<char>)
    requires
        a != b,
    ensures
        key_lt(a, b) || key_lt(b, a),
    decreases a.len(),
{
    if a.len() > 0 && b.len() > 0 && a[0] == b[0] {
        if a.drop_first() == b.drop_first() {
            assert(a =~= seq![a[0]] + a.drop_first());
            assert(b =~= seq![b[0]] + b.drop_first());
        } else {
            lemma_key_lt_total(a.drop_first(), b.drop_first());
        }
    } else if a.len() == 0 && b.len() == 0 {
        assert(a =~= b);
    } else if a.len() > 0 && b.len() > 0 {
        assert(a[0] < b[0] || b[0] < a[0]);
    }
}

/// Whether key `a` comes before key `b`.
fn key_less(a: &Vec<char>, b: &Vec<char>) -> (r: bool)
    ensures
        r == key_lt(a@, b@),
{
    assert(a@.subrange(0, a@.len() as int) =~= a@);
    assert(b@.subrange(0, b@.len() as int) =~= b@);
    let mut i: usize = 0;
    while i < a.len() && i < b.len()
        invariant
            i <= a@.len(),
            i <= b@.len(),
            key_lt(a@, b@) == key_lt(
                a@.subrange(i as int, a@.len() as int),
                b@.subrange(i as int, b@.len() as int),
            ),
        decreases a.len() - i,
    {
        let ghost sa = a@.subrange(i as int, a@.len() as int);
        let ghost sb = b@.subrange(i as int, b@.len() as int);
        assert(sa[0] == a@[i as int] && sb[0] == b@[i as int]);
        if a[i] != b[i] {
            return a[i] < b[i];
        }
        assert(sa.drop_first() =~= a@.subrange(i + 1 as int, a@.len() as int));
        assert(sb.drop_first() =~= b@.subrange(i + 1 as int, b@.len() as int));
        i = i + 1;
    }
    i < b.len()
}

/// The models of a list of properties.
pub open spec fn models(v: Seq<Property>) -> Seq<PropertyModel> {
    v.map_values(|p: Property| p@)
}

/// Keys strictly increase along the list, so no key occurs twice.
pub open spec fn sorted_keys(s: Seq<PropertyModel>) -> bool {
    forall|i: int, j: int| 0 <= i < j < s.len() ==> key_lt(#[trigger] s[i].key, #[trigger] s[j].key)
}

/// Whether some property in `s` has key `k`.
pub open spec fn has_key(s: Seq<PropertyModel>, k: Seq<char>) -> bool {
    exists|i: int| 0 <= i < s.len() && (#[trigger] s[i]).key == k
}

/// The property with key `k` in `s`, if there is one.
pub open spec fn lookup(s: Seq<PropertyModel>, k: Seq<char>) -> Option<PropertyModel> {
    if has_key(s, k) {
        Some(s[choose|i: int| 0 <= i < s.len() && (#[trigger] s[i]).key == k])
    } else {
        None
    }
}

/// The value of the property with key `k` in `s`, if there is one.
pub open spec fn lookup_value(s: Seq<PropertyModel>, k: Seq<char>) -> Option<Seq<char>> {
    match lookup(s, k) {
        Some(p) => Some(p.value),
        None => None,
    }
}

/// `after` is `before` with `p` stored under its key: `p` replaces any property
/// of the same key, every other property stays, and keys stay in order.
pub open spec fn stored(before: Seq<PropertyModel>, after: Seq<PropertyModel>, p: PropertyModel) -> bool {
    &&& sorted_keys(after)
    &&& forall|q: PropertyModel|
        after.contains(q) <==> (q == p || (before.contains(q) && q.key != p.key))
}

/// In a list with ordered keys, the property at index `i` is the one found under its key.
pub proof fn lemma_lookup_at(s: Seq<PropertyModel>, i: int)
    requires
        sorted_keys(s),
        0 <= i < s.len(),
    ensures
        lookup(s, s[i].key) == Some(s[i]),
{
    let k = s[i].key;
    assert(has_key(s, k));
    let j = choose|j: int| 0 <= j < s.len() && (#[trigger] s[j]).key == k;
    if j < i {
        assert(key_lt(s[j].key, s[i].key));
        lemma_key_lt_irreflexive(k);
    } else if i < j {
        assert(key_lt(s[i].key, s[j].key));
        lemma_key_lt_irreflexive(k);
    }
}

/// After `p` is stored, the property found under its key is `p`.
pub proof fn lemma_lookup_stored(before: Seq<PropertyModel>, after: Seq<PropertyModel>, p: PropertyModel)
    requires
        stored(before, after, p),
    ensures
        lookup(after, p.key) == Some(p),
{
    assert(after.contains(p));
    let i = choose|i: int| 0 <= i < after.len() && after[i] == p;
    lemma_lookup_at(after, i);
}

/// Two lists with ordered keys that hold the same properties are the same list.
pub proof fn lemma_sorted_same_contents(s: Seq<PropertyModel>, t: Seq<PropertyModel>)
    requires
        sorted_keys(s),
        sorted_keys(t),
        forall|q: PropertyModel| s.contains(q) <==> t.contains(q),
    ensures
        s == t,
    decreases s.len(),
{
    if s.len() == 0 {
        if t.len() > 0 {
            assert(t.contains(t[0]));
        }
        assert(s =~= t);
    } else {
        assert(s.contains(s[0]));
        assert(t.len() > 0);
        assert(t.contains(t[0]));
        let j = choose|j: int| 0 <= j < t.len() && t[j] == s[0];
        let i = choose|i: int| 0 <= i < s.len() && s[i] == t[0];
        if j > 0 {
            assert(key_lt(t[0].key, t[j].key));
            if i > 0 {
                assert(key_lt(s[0].key, s[i].key));
                lemma_key_lt_transitive(s[0].key, s[i].key, s[0].key);
            }
            lemma_key_lt_irreflexive(s[0].key);
        }
        let s1 = s.drop_first();
        let t1 = t.drop_first();
        assert forall|q: PropertyModel| s1.contains(q) <==> t1.contains(q) by {
            if s1.contains(q) {
                let k = choose|k: int| 0 <= k < s1.len() && s1[k] == q;
                assert(s[k + 1] == q);
                assert(key_lt(s[0].key, s[k + 1].key));
                assert(s.contains(q));
                let m = choose|m: int| 0 <= m < t.len() && t[m] == q;
                if m == 0 {
                    lemma_key_lt_irreflexive(q.key);
                }
                assert(t1[m - 1] == q);
            }
            if t1.contains(q) {
                let k = choose|k: int| 0 <= k < t1.len() && t1[k] == q;
                assert(t[k + 1] == q);
                assert(key_lt(t[0].key, t[k + 1].key));
                assert(t.contains(q));
                let m = choose|m: int| 0 <= m < s.len() && s[m] == q;
                if m == 0 {
                    lemma_key_lt_irreflexive(q.key);
                }
                assert(s1[m - 1] == q);
            }
        }
        assert(sorted_keys(s1)) by {
            assert forall|a: int, b: int| 0 <= a < b < s1.len() implies key_lt(
                #[trigger] s1[a].key,
                #[trigger] s1[b].key,
            ) by {
                assert(key_lt(s[a + 1].key, s[b + 1].key));
            }
        }
        assert(sorted_keys(t1)) by {
            assert forall|a: int, b: int| 0 <= a < b < t1.len() implies key_lt(
                #[trigger] t1[a].key,
                #[trigger] t1[b].key,
            ) by {
                assert(key_lt(t[a + 1].key, t[b + 1].key));
            }
        }
        lemma_sorted_same_contents(s1, t1);
        assert(s =~= seq![s[0]] + s1);
        assert(t =~= seq![t[0]] + t1);
    }
}

/// Storing two properties under one key leaves exactly one property of that key,
/// the second.
pub proof fn lemma_store_twice(
    s0: Seq<PropertyModel>,
    s1: Seq<PropertyModel>,
    s2: Seq<PropertyModel>,
    p1: PropertyModel,
    p2: PropertyModel,
)
    requires
        stored(s0, s1, p1),
        stored(s1, s2, p2),
        p1.key == p2.key,
    ensures
        exists|i: int| 0 <= i < s2.len() && s2[i] == p2,
        forall|i: int, j: int|
            0 <= i < s2.len() && 0 <= j < s2.len() && s2[i].key == p2.key && s2[j].key == p2.key
                ==> i == j && s2[i] == p2,
        lookup(s2, p2.key) == Some(p2),
{
    assert(s2.contains(p2));
    let i0 = choose|i: int| 0 <= i < s2.len() && s2[i] == p2;
    assert forall|i: int, j: int|
        0 <= i < s2.len() && 0 <= j < s2.len() && s2[i].key == p2.key && s2[j].key == p2.key
            implies i == j && s2[i] == p2 by {
        assert(s2.contains(s2[i]));
        if i < j {
            assert(key_lt(s2[i].key, s2[j].key));
            lemma_key_lt_irreflexive(p2.key);
        } else if j < i {
            assert(key_lt(s2[j].key, s2[i].key));
            lemma_key_lt_irreflexive(p2.key);
        }
    }
    lemma_lookup_at(s2, i0);
}

/// The properties of a component: single-valued ones by key, and repeatable ones
/// in order of insertion.
#[derive(Debug, PartialEq, Eq)]
pub struct InnerComponent {
    properties: Vec<Property>,
    multi_properties: Vec<Property>,
}

impl InnerComponent {
    /// The single-valued properties.
    pub closed spec fn props(&self) -> Seq<PropertyModel> {
        models(self.properties@)
    }

    /// The repeatable properties.
    pub closed spec fn multis(&self) -> Seq<PropertyModel> {
        models(self.multi_properties@)
    }

    /// Keys of the single-valued properties are ordered and unique.
    pub open spec fn wf(&self) -> bool {
        sorted_keys(self.props())
    }

    /// The single-valued properties, ordered by key.
    pub fn properties(&self) -> (r: &Vec<Property>)
        ensures
            models(r@) == self.props(),
    {
        &self.properties
    }

    /// The repeatable properties, in order of insertion.
    pub fn multi_properties(&self) -> (r: &Vec<Property>)
        ensures
            models(r@) == self.multis(),
    {
        &self.multi_properties
    }

    /// No properties.
    pub fn new() -> (r: InnerComponent)
        ensures
            r.props().len() == 0,
            r.multis().len() == 0,
            r.wf(),
    {
        InnerComponent { properties: Vec::new(), multi_properties: Vec::new() }
    }

    /// Moves the properties out, leaving this value empty.
    pub fn done(&mut self) -> (r: InnerComponent)
        ensures
            r.props() == old(self).props(),
            r.multis() == old(self).multis(),
            final(self).props().len() == 0,
            final(self).multis().len() == 0,
    {
        let mut r = InnerComponent::new();
        std::mem::swap(self, &mut r);
        r
    }

    /// Stores `p` under its key, replacing a property of the same key.
    pub fn insert(&mut self, p: Property)
        requires
            old(self).wf(),
        ensures
            final(self).wf(),
            stored(old(self).props(), final(self).props(), p@),
            final(self).multis() == old(self).multis(),
    {
        let ghost s = self.props();
        let ghost k = p@.key;
        let key = chars_of(p.key.as_str());
        let mut i: usize = 0;
        while i < self.properties.len()
            invariant
                s == self.props(),
                key@ == k,
                i <= s.len(),
                forall|j: int| 0 <= j < i ==> key_lt(#[trigger] s[j].key, k),
            ensures
                i <= s.len(),
                forall|j: int| 0 <= j < i ==> key_lt(#[trigger] s[j].key, k),
                i < s.len() ==> !key_lt(s[i as int].key, k),
            decreases self.properties.len() - i,
        {
            let here = chars_of(self.properties[i].key.as_str());
            if !key_less(&here, &key) {
                break;
            }
            i = i + 1;
        }
        let same = i < self.properties.len() && same_chars(
            &chars_of(self.properties[i].key.as_str()),
            &key,
        );
        proof {
            assert forall|j: int| 0 <= j < i implies s[j].key != k by {
                lemma_key_lt_irreflexive(k);
            }
            if i < s.len() {
                assert(!key_lt(s[i as int].key, k));
                if !same {
                    lemma_key_lt_total(s[i as int].key, k);
                }
                assert forall|j: int| i < j < s.len() implies key_lt(k, #[trigger] s[j].key)
                    && s[j].key != k by {
                    assert(key_lt(s[i as int].key, s[j].key));
                    if !same {
                        lemma_key_lt_transitive(k, s[i as int].key, s[j].key);
                    }
                    lemma_key_lt_irreflexive(k);
                    if s[j].key == k {
                        assert(same);
                    }
                }
            }
        }
        if same {
            self.properties.remove(i);
        }
        self.properties.insert(i, p);
        proof {
            let t = self.props();
            if same {
                assert(t =~= s.update(i as int, p@));
            } else {
                assert(t =~= s.insert(i as int, p@));
            }
            assert forall|a: int, b: int| 0 <= a < b < t.len() implies key_lt(
                #[trigger] t[a].key,
                #[trigger] t[b].key,
            ) by {
                if same {
                    if b == i {
                        assert(key_lt(s[a].key, k));
                    } else if a == i {
                        assert(key_lt(k, s[b].key));
                    }
                } else {
                    if b == i {
                        assert(key_lt(s[a].key, k));
                    } else if a == i {
                        assert(key_lt(k, s[b - 1].key));
                    } else if a < i && i < b {
                        assert(key_lt(s[a].key, s[b - 1].key));
                    } else if i < a {
                        assert(key_lt(s[a - 1].key, s[b - 1].key));
                    }
                }
            }
            assert forall|q: PropertyModel|
                t.contains(q) <==> (q == p@ || (s.contains(q) && q.key != k)) by {
                if t.contains(q) {
                    let a = choose|a: int| 0 <= a < t.len() && t[a] == q;
                    if a != i {
                        if same || a < i {
                            assert(s[a] == q);
                        } else {
                            assert(s[a - 1] == q);
                        }
                    }
                }
                if s.contains(q) && q.key != k {
                    let a = choose|a: int| 0 <= a < s.len() && s[a] == q;
                    if same {
                        assert(a != i);
                        assert(t[a] == q);
                    } else if a < i {
                        assert(t[a] == q);
                    } else {
                        assert(t[a + 1] == q);
                    }
                }
                if q == p@ {
                    assert(t[i as int] == q);
                }
            }
        }
    }

    /// Appends `p` to the repeatable properties.
    pub fn push_multi(&mut self, p: Property)
        ensures
            final(self).props() == old(self).props(),
            final(self).multis() == old(self).multis().push(p@),
    {
        self.multi_properties.push(p);
        assert(self.multis() =~= old(self).multis().push(p@));
    }

    /// The index of the property with key `key`, if there is one.
    pub fn find(&self, key: &str) -> (r: Option<usize>)
        requires
            self.wf(),
        ensures
            match r {
                Some(i) => i < self.props().len() && lookup(self.props(), key@) == Some(
                    self.props()[i as int],
                ),
                None => lookup(self.props(), key@) is None,
            },
    {
        let k = chars_of(key);
        let mut i: usize = 0;
        while i < self.properties.len()
            invariant
                k@ == key@,
                self.wf(),
                i <= self.props().len(),
                forall|j: int| 0 <= j < i ==> (#[trigger] self.props()[j]).key != key@,
            decreases self.properties.len() - i,
        {
            if same_chars(&chars_of(self.properties[i].key.as_str()), &k) {
                proof {
                    lemma_lookup_at(self.props(), i as int);
                }
                return Some(i);
            }
            i = i + 1;
        }
        None
    }
}

} // verus!
