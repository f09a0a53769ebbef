//! An association list in the order of its keys.

use vstd::prelude::*;

use crate::text::chars_of;
use crate::text::same_text;

verus! {

/// Whether `a` comes before `b`, character by character.
pub open spec fn text_less(a: Seq<char>, b: Seq<char>) -> bool
    decreases a.len(),
{
    if b.len() == 0 {
        false
    } else if a.len() == 0 {
        true
    } else if a[0] == b[0] {
        text_less(a.skip(1), b.skip(1))
    } else {
        a[0] < b[0]
    }
}

/// Whether `a` comes before `b`, character by character.
pub fn text_before(a: &str, b: &str) -> (r: bool)
    ensures
        r == text_less(a@, b@),
{
    let x = chars_of(a);
    let y = chars_of(b);
    let mut i: usize = 0;
    proof {
        assert(x@.skip(0) =~= a@);
        assert(y@.skip(0) =~= b@);
    }
    while i < x.len() && i < y.len() && x[i] == y[i]
        invariant
            i <= x@.len(),
            i <= y@.len(),
            text_less(x@.skip(i as int), y@.skip(i as int)) == text_less(a@, b@),
        decreases x@.len() - i,
    {
        proof {
            assert(x@.skip(i as int).skip(1) =~= x@.skip(i + 1));
            assert(y@.skip(i as int).skip(1) =~= y@.skip(i + 1));
        }
        i += 1;
    }
    if i >= y.len() {
        false
    } else if i >= x.len() {
        true
    } else {
        x[i] < y[i]
    }
}

/// No text comes before itself.
pub proof fn lemma_less_irreflexive(a: Seq<char>)
    ensures
        !text_less(a, a),
    decreases a.len(),
{
    if a.len() > 0 {
        lemma_less_irreflexive(a.skip(1));
    }
}

/// Of two different texts one comes before the other.
pub proof fn lemma_less_total(a: Seq<char>, b: Seq<char>)
    ensures
        a == b || text_less(a, b) || text_less(b, a),
    decreases a.len(),
{
    if a.len() == 0 && b.len() == 0 {
        assert(a =~= b);
    } else if a.len() == 0 {
        assert(text_less(a, b));
    } else if b.len() == 0 {
        assert(text_less(b, a));
    } else if a[0] == b[0] {
        lemma_less_total(a.skip(1), b.skip(1));
        if a.skip(1) == b.skip(1) {
            assert(a =~= seq![a[0]] + a.skip(1));
            assert(b =~= seq![b[0]] + b.skip(1));
            assert(a == b);
        } else if text_less(a.skip(1), b.skip(1)) {
            assert(text_less(a, b));
        } else {
            assert(text_less(b, a));
        }
    }
}

/// What comes before a text comes before all that the text comes before.
pub proof fn lemma_less_transitive(a: Seq<char>, b: Seq<char>, c: Seq<char>)
    requires
        text_less(a, b),
        text_less(b, c),
    ensures
        text_less(a, c),
    decreases a.len(),
{
    if a.len() > 0 && a[0] == b[0] && b[0] == c[0] {
        lemma_less_transitive(a.skip(1), b.skip(1), c.skip(1));
    }
}

/// The list with `key` bound to `value`: in place of an earlier binding, or
/// before the first greater key.
pub open spec fn put_pair<V>(s: Seq<(Seq<char>, V)>, key: Seq<char>, value: V) -> Seq<
    (Seq<char>, V),
>
    decreases s.len(),
{
    if s.len() == 0 {
        seq![(key, value)]
    } else if s[0].0 == key {
        seq![(key, value)] + s.skip(1)
    } else if text_less(key, s[0].0) {
        seq![(key, value)] + s
    } else {
        seq![s[0]] + put_pair(s.skip(1), key, value)
    }
}

/// What `key` is bound to.
pub open spec fn find_pair<V>(s: Seq<(Seq<char>, V)>, key: Seq<char>) -> Option<V>
    decreases s.len(),
{
    if s.len() == 0 {
        None
    } else if s[0].0 == key {
        Some(s[0].1)
    } else {
        find_pair(s.skip(1), key)
    }
}

/// Whether the keys ascend.
pub open spec fn ascending<V>(s: Seq<(Seq<char>, V)>) -> bool {
    forall|i: int, j: int| 0 <= i < j < s.len() ==> text_less(#[trigger] s[i].0, #[trigger] s[j].0)
}

/// A binding that was put is found, and no other binding changes.
pub proof fn law_put_find<V>(
    s: Seq<(Seq<char>, V)>,
    key: Seq<char>,
    value: V,
    other: Seq<char>,
)
    ensures
        find_pair(put_pair(s, key, value), key) == Some(value),
        other != key ==> find_pair(put_pair(s, key, value), other) == find_pair(s, other),
    decreases s.len(),
{
    let r = put_pair(s, key, value);
    if s.len() == 0 {
        assert(r.skip(1) =~= s);
    } else if s[0].0 == key {
        assert(r.skip(1) =~= s.skip(1));
    } else if text_less(key, s[0].0) {
        assert(r.skip(1) =~= s);
    } else {
        law_put_find(s.skip(1), key, value, other);
        assert(r.skip(1) =~= put_pair(s.skip(1), key, value));
    }
}

/// Putting a binding keeps the keys ascending, so that each occurs once.
pub proof fn law_put_ascending<V>(s: Seq<(Seq<char>, V)>, key: Seq<char>, value: V)
    requires
        ascending(s),
    ensures
        ascending(put_pair(s, key, value)),
        forall|i: int|
            0 <= i < put_pair(s, key, value).len() ==> (#[trigger] put_pair(s, key, value)[i]).0
                == key || exists|j: int|
                0 <= j < s.len() && (#[trigger] s[j]).0 == put_pair(s, key, value)[i].0,
    decreases s.len(),
{
    let r = put_pair(s, key, value);
    if s.len() == 0 {
    } else if s[0].0 == key {
        assert forall|i: int, j: int| 0 <= i < j < r.len() implies text_less(
            #[trigger] r[i].0,
            #[trigger] r[j].0,
        ) by {
            assert(r[j].0 == s[j].0);
            assert(r[i].0 == s[i].0);
        }
    } else if text_less(key, s[0].0) {
        assert forall|i: int, j: int| 0 <= i < j < r.len() implies text_less(
            #[trigger] r[i].0,
            #[trigger] r[j].0,
        ) by {
            assert(r[j] == s[j - 1]);
            if i == 0 {
                if j > 1 {
                    lemma_less_transitive(key, s[0].0, s[j - 1].0);
                }
            } else {
                assert(r[i] == s[i - 1]);
            }
        }
    } else {
        let rest = s.skip(1);
        assert(ascending(rest)) by {
            assert forall|i: int, j: int| 0 <= i < j < rest.len() implies text_less(
                #[trigger] rest[i].0,
                #[trigger] rest[j].0,
            ) by {
                assert(rest[i] == s[i + 1] && rest[j] == s[j + 1]);
            }
        }
        law_put_ascending(rest, key, value);
        lemma_less_total(key, s[0].0);
        let tail = put_pair(rest, key, value);
        assert forall|i: int, j: int| 0 <= i < j < r.len() implies text_less(
            #[trigger] r[i].0,
            #[trigger] r[j].0,
        ) by {
            assert(r[j] == tail[j - 1]);
            if i == 0 {
                if tail[j - 1].0 != key {
                    let k = choose|k: int|
                        0 <= k < rest.len() && (#[trigger] rest[k]).0 == tail[j - 1].0;
                    assert(rest[k] == s[k + 1]);
                }
            } else {
                assert(r[i] == tail[i - 1]);
            }
        }
        assert forall|i: int| 0 <= i < r.len() implies (#[trigger] r[i]).0 == key || exists|j: int|
            0 <= j < s.len() && (#[trigger] s[j]).0 == r[i].0 by {
            if i == 0 {
                assert(s[0].0 == r[0].0);
            } else {
                assert(r[i] == tail[i - 1]);
                if tail[i - 1].0 != key {
                    let k = choose|k: int|
                        0 <= k < rest.len() && (#[trigger] rest[k]).0 == tail[i - 1].0;
                    assert(rest[k] == s[k + 1]);
                }
            }
        }
    }
}

proof fn lemma_put_at<V>(s: Seq<(Seq<char>, V)>, key: Seq<char>, value: V, i: int)
    requires
        0 <= i <= s.len(),
        forall|j: int| 0 <= j < i ==> (#[trigger] s[j]).0 != key && !text_less(key, s[j].0),
    ensures
        put_pair(s, key, value) == s.take(i) + put_pair(s.skip(i), key, value),
    decreases i,
{
    if i == 0 {
        assert(s.skip(0) =~= s);
        assert(s.take(0) + put_pair(s, key, value) =~= put_pair(s, key, value));
    } else {
        assert(s[0].0 != key);
        let rest = s.skip(1);
        assert forall|j: int| 0 <= j < i - 1 implies (#[trigger] rest[j]).0 != key && !text_less(
            key,
            rest[j].0,
        ) by {
            assert(rest[j] == s[j + 1]);
        }
        lemma_put_at(rest, key, value, i - 1);
        assert(rest.skip(i - 1) =~= s.skip(i));
        assert(seq![s[0]] + (rest.take(i - 1) + put_pair(s.skip(i), key, value)) =~= s.take(i)
            + put_pair(s.skip(i), key, value));
    }
}

/// The bindings of a list, as values.
pub open spec fn pairs_view<V>(s: Seq<(String, V)>) -> Seq<(Seq<char>, V)> {
    s.map_values(|p: (String, V)| (p.0@, p.1))
}

/// Bindings from text keys to values, in the order of the keys; no key occurs
/// twice.
pub struct SortedMap<V> {
    entries: Vec<(String, V)>,
}

impl<V> View for SortedMap<V> {
    type V = Seq<(Seq<char>, V)>;

    closed spec fn view(&self) -> Seq<(Seq<char>, V)> {
        pairs_view(self.entries@)
    }
}

impl<V> SortedMap<V> {
    #[verifier::type_invariant]
    spec fn keys_ascend(self) -> bool {
        ascending(pairs_view(self.entries@))
    }

    /// A map without bindings.
    pub fn new() -> (r: SortedMap<V>)
        ensures
            r@ == Seq::<(Seq<char>, V)>::empty(),
    {
        let entries: Vec<(String, V)> = Vec::new();
        let r = SortedMap { entries };
        proof {
            assert(r@ =~= Seq::empty());
        }
        r
    }

    /// The number of bindings.
    pub fn len(&self) -> (r: usize)
        ensures
            r == self@.len(),
            ascending(self@),
    {
        proof {
            use_type_invariant(self);
        }
        self.entries.len()
    }

    /// The key of binding `i`.
    pub fn key_at(&self, i: usize) -> (r: &String)
        requires
            i < self@.len(),
        ensures
            r@ == self@[i as int].0,
    {
        &self.entries[i].0
    }

    /// The value of binding `i`.
    pub fn value_at(&self, i: usize) -> (r: &V)
        requires
            i < self@.len(),
        ensures
            *r == self@[i as int].1,
    {
        &self.entries[i].1
    }

    /// What a key is bound to.
    pub fn get(&self, key: &str) -> (r: Option<&V>)
        ensures
            r matches Some(v) ==> find_pair(self@, key@) == Some(*v),
            r is None ==> find_pair(self@, key@) is None,
    {
        let mut i: usize = 0;
        proof {
            assert(self@.skip(0) =~= self@);
        }
        while i < self.entries.len()
            invariant
                i <= self.entries@.len(),
                find_pair(self@.skip(i as int), key@) == find_pair(self@, key@),
            decreases self.entries@.len() - i,
        {
            proof {
                assert(self@.skip(i as int).skip(1) =~= self@.skip(i + 1));
            }
            if same_text(self.entries[i].0.as_str(), key) {
                return Some(&self.entries[i].1);
            }
            i += 1;
        }
        None
    }

    /// Binds `key` to `value`, replacing an earlier binding.
    pub fn put(&mut self, key: &str, value: V)
        ensures
            final(self)@ == put_pair(old(self)@, key@, value),
            ascending(final(self)@),
    {
        proof {
            use_type_invariant(&*self);
            law_put_ascending(self@, key@, value);
        }
        let mut i: usize = 0;
        while i < self.entries.len() && !same_text(self.entries[i].0.as_str(), key) && !text_before(
            key,
            self.entries[i].0.as_str(),
        )
            invariant
                i <= self.entries@.len(),
                *self == *old(self),
                forall|j: int|
                    0 <= j < i ==> (#[trigger] self@[j]).0 != key@ && !text_less(key@, self@[j].0),
            decreases self.entries@.len() - i,
        {
            i += 1;
        }
        proof {
            lemma_put_at(self@, key@, value, i as int);
        }
        let replace = i < self.entries.len() && same_text(self.entries[i].0.as_str(), key);
        let ghost rest = self@.skip(i as int);
        let mut entries: Vec<(String, V)> = Vec::new();
        std::mem::swap(&mut entries, &mut self.entries);
        if replace {
            entries.remove(i);
        }
        entries.insert(i, (key.to_owned(), value));
        proof {
            let now = pairs_view(entries@);
            if replace {
                assert(now =~= old(self)@.take(i as int) + (seq![(key@, value)] + rest.skip(1)));
            } else {
                assert(now =~= old(self)@.take(i as int) + (seq![(key@, value)] + rest));
            }
        }
        self.entries = entries;
    }
}

/// The bindings with their values read as texts.
pub open spec fn text_pairs(s: Seq<(Seq<char>, String)>) -> Seq<(Seq<char>, Seq<char>)> {
    s.map_values(|p: (Seq<char>, String)| (p.0, p.1@))
}

/// Putting a text and reading the texts commute.
pub proof fn lemma_put_text(s: Seq<(Seq<char>, String)>, key: Seq<char>, value: String)
    ensures
        text_pairs(put_pair(s, key, value)) == put_pair(text_pairs(s), key, value@),
    decreases s.len(),
{
    let t = text_pairs(s);
    if s.len() == 0 {
        assert(text_pairs(put_pair(s, key, value)) =~= put_pair(t, key, value@));
    } else {
        assert(t.skip(1) =~= text_pairs(s.skip(1)));
        lemma_put_text(s.skip(1), key, value);
        assert(text_pairs(put_pair(s, key, value)) =~= put_pair(t, key, value@));
    }
}

/// Finding a text and reading the texts commute.
pub proof fn lemma_find_text(s: Seq<(Seq<char>, String)>, key: Seq<char>)
    ensures
        find_pair(text_pairs(s), key) == match find_pair(s, key) {
            Some(v) => Some(v@),
            None => None,
        },
    decreases s.len(),
{
    if s.len() > 0 {
        assert(text_pairs(s).skip(1) =~= text_pairs(s.skip(1)));
        lemma_find_text(s.skip(1), key);
    }
}

/// What was put is what is found, and other keys find what they found before.
pub proof fn law_map_read_back<V>(
    map: &mut SortedMap<V>,
    key: &str,
    value: V,
    then: SortedMap<V>,
    looked_up: &str,
    r: Option<&V>,
)
    requires
        call_ensures(SortedMap::<V>::put, (map, key, value), ()),
        then == *final(map),
        call_ensures(SortedMap::<V>::get, (&then, looked_up), r),
    ensures
        looked_up@ == key@ ==> r is Some && *r->0 == value,
        looked_up@ != key@ ==> (match r {
            Some(v) => Some(*v),
            None => None,
        }) == find_pair(old(map)@, looked_up@),
{
    law_put_find(old(map)@, key@, value, looked_up@);
}

/// Texts are ordered by the first character in which they differ, and a text comes
/// before what continues it.
pub proof fn law_text_order(a: Seq<char>, b: Seq<char>, i: int)
    requires
        0 <= i <= a.len(),
        i < b.len(),
        a.take(i) == b.take(i),
        i < a.len() ==> a[i] != b[i],
    ensures
        text_less(a, b) <==> i == a.len() || a[i] < b[i],
        text_less(b, a) <==> i < a.len() && b[i] < a[i],
    decreases i,
{
    if i > 0 {
        assert forall|j: int| 0 <= j < i implies #[trigger] a[j] == b[j] by {
            assert(a.take(i)[j] == a[j]);
            assert(b.take(i)[j] == b[j]);
        }
        let x = a.skip(1);
        let y = b.skip(1);
        assert forall|j: int| 0 <= j < i - 1 implies #[trigger] x[j] == y[j] by {
            assert(x[j] == a[j + 1]);
            assert(y[j] == b[j + 1]);
        }
        assert(x.take(i - 1) =~= y.take(i - 1));
        assert(i < a.len() ==> x[i - 1] == a[i]);
        assert(y[i - 1] == b[i]);
        law_text_order(x, y, i - 1);
        assert(a[0] == b[0]);
    }
}

} // verus!
