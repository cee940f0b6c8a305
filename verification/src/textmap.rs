//! Maps from text to text.
//!
//! Configurations and environments are maps from names to values. A
//! [`TextMap`] keeps its entries in the order of their keys, so that walking
//! one always gives the same order.

use crate::text;
use vstd::prelude::*;

verus! {

/// Whether `a` comes before `b` in the order of their characters.
pub open spec fn text_less(a: Seq<char>, b: Seq<char>) -> bool
    decreases a.len(),
{
    if b.len() == 0 {
        false
    } else if a.len() == 0 {
        true
    } else if a[0] != b[0] {
        a[0] < b[0]
    } else {
        text_less(a.drop_first(), b.drop_first())
    }
}

/// No text comes before itself.
pub proof fn text_less_irreflexive(a: Seq<char>)
    ensures
        !text_less(a, a),
    decreases a.len(),
{
    if a.len() > 0 {
        text_less_irreflexive(a.drop_first());
    }
}

/// The order of texts is transitive.
pub proof fn text_less_transitive(a: Seq<char>, b: Seq<char>, c: Seq<char>)
    requires
        text_less(a, b),
        text_less(b, c),
    ensures
        text_less(a, c),
    decreases a.len(),
{
    if a.len() > 0 && a[0] == b[0] && b[0] == c[0] {
        text_less_transitive(a.drop_first(), b.drop_first(), c.drop_first());
    }
}

/// Of two different texts, one comes before the other.
pub proof fn text_less_total(a: Seq<char>, b: Seq<char>)
    ensures
        a == b || text_less(a, b) || text_less(b, a),
    decreases a.len(),
{
    if a.len() == 0 || b.len() == 0 {
        if a.len() == b.len() {
            assert(a =~= b);
        }
    } else if a[0] == b[0] {
        text_less_total(a.drop_first(), b.drop_first());
        if a.drop_first() == b.drop_first() {
            assert(a =~= seq![a[0]] + a.drop_first());
            assert(b =~= seq![b[0]] + b.drop_first());
        }
    }
}

/// Whether `a` comes before `b`.
pub fn comes_before(a: &str, b: &str) -> (r: bool)
    ensures
        r == text_less(a@, b@),
{
    let x = text::chars_of(a);
    let y = text::chars_of(b);
    let mut i: usize = 0;
    assert(x@.skip(0) =~= x@ && y@.skip(0) =~= y@);
    while i < x.len() && i < y.len()
        invariant
            i <= x@.len(),
            i <= y@.len(),
            x@ == a@,
            y@ == b@,
            text_less(a@, b@) == text_less(x@.skip(i as int), y@.skip(i as int)),
        decreases x@.len() - i,
    {
        if x[i] != y[i] {
            return x[i] < y[i];
        }
        assert(x@.skip(i as int).drop_first() =~= x@.skip(i + 1));
        assert(y@.skip(i as int).drop_first() =~= y@.skip(i + 1));
        i = i + 1;
    }
    i < y.len()
}

/// Name and value, as sequences of characters.
pub type EntryView = (Seq<char>, Seq<char>);

/// Whether the keys of `e` are in strictly ascending order.
pub open spec fn sorted(e: Seq<EntryView>) -> bool {
    forall|i: int, j: int|
        0 <= i < j < e.len() ==> text_less((#[trigger] e[i]).0, (#[trigger] e[j]).0)
}

/// Whether `e` has an entry with this key.
pub open spec fn has_key(e: Seq<EntryView>, key: Seq<char>) -> bool {
    exists|i: int| 0 <= i < e.len() && (#[trigger] e[i]).0 == key
}

/// Map that the entries stand for.
pub open spec fn map_of(e: Seq<EntryView>) -> Map<Seq<char>, Seq<char>> {
    Map::new(
        |k: Seq<char>| has_key(e, k),
        |k: Seq<char>| e[choose|i: int| 0 <= i < e.len() && (#[trigger] e[i]).0 == k].1,
    )
}

/// Views of entries.
pub open spec fn entry_views(v: Seq<(String, String)>) -> Seq<EntryView> {
    v.map_values(|e: (String, String)| (e.0@, e.1@))
}

/// Map from text to text, with its entries in the order of their keys.
#[derive(Debug, PartialEq, Eq)]
pub struct TextMap {
    entries: Vec<(String, String)>,
}

impl View for TextMap {
    type V = Map<Seq<char>, Seq<char>>;

    closed spec fn view(&self) -> Map<Seq<char>, Seq<char>> {
        map_of(self.list())
    }
}

proof fn entry_in_map(e: Seq<EntryView>, i: int)
    requires
        sorted(e),
        0 <= i < e.len(),
    ensures
        map_of(e).dom().contains(e[i].0),
        map_of(e)[e[i].0] == e[i].1,
{
    let k = e[i].0;
    assert(has_key(e, k));
    let j = choose|j: int| 0 <= j < e.len() && (#[trigger] e[j]).0 == k;
    text_less_irreflexive(k);
    if i < j {
        assert(text_less(e[i].0, e[j].0));
    }
    if j < i {
        assert(text_less(e[j].0, e[i].0));
    }
}

/// Entries that come in order and stand for the same map are the same.
pub proof fn entries_are_canonical(a: Seq<EntryView>, b: Seq<EntryView>)
    requires
        sorted(a),
        sorted(b),
        map_of(a) == map_of(b),
    ensures
        a == b,
    decreases a.len(),
{
    if a.len() == 0 {
        if b.len() > 0 {
            entry_in_map(b, 0);
            assert(has_key(a, b[0].0));
        }
        assert(a =~= b);
    } else {
        entry_in_map(a, a.len() - 1);
        assert(has_key(b, a.last().0));
        let j = choose|j: int| 0 <= j < b.len() && (#[trigger] b[j]).0 == a.last().0;
        entry_in_map(b, b.len() - 1);
        assert(has_key(a, b.last().0));
        let i = choose|i: int| 0 <= i < a.len() && (#[trigger] a[i]).0 == b.last().0;
        assert(a.last() == a[a.len() - 1] && b.last() == b[b.len() - 1]);
        if j < b.len() - 1 {
            assert(text_less(b[j].0, b[b.len() - 1].0));
            if i < a.len() - 1 {
                assert(text_less(a[i].0, a[a.len() - 1].0));
                text_less_transitive(a.last().0, b.last().0, a.last().0);
                text_less_irreflexive(a.last().0);
            } else {
                text_less_irreflexive(a.last().0);
            }
        }
        assert(a.last().0 == b.last().0);
        assert(a.last().1 == b.last().1);
        let af = a.drop_last();
        let bf = b.drop_last();
        assert(sorted(af)) by {
            assert forall|x: int, y: int| 0 <= x < y < af.len() implies text_less(
                (#[trigger] af[x]).0,
                (#[trigger] af[y]).0,
            ) by {
                assert(text_less(a[x].0, a[y].0));
            }
        }
        assert(sorted(bf)) by {
            assert forall|x: int, y: int| 0 <= x < y < bf.len() implies text_less(
                (#[trigger] bf[x]).0,
                (#[trigger] bf[y]).0,
            ) by {
                assert(text_less(b[x].0, b[y].0));
            }
        }
        assert forall|k: Seq<char>| has_key(af, k) <==> has_key(bf, k) by {
            front_key(a, k);
            front_key(b, k);
            assert(map_of(a).dom().contains(k) == has_key(a, k));
            assert(map_of(b).dom().contains(k) == has_key(b, k));
        }
        assert forall|k: Seq<char>| has_key(af, k) implies map_of(af)[k] == map_of(bf)[k] by {
            let x = choose|x: int| 0 <= x < af.len() && (#[trigger] af[x]).0 == k;
            let y = choose|y: int| 0 <= y < bf.len() && (#[trigger] bf[y]).0 == k;
            entry_in_map(af, x);
            entry_in_map(bf, y);
            entry_in_map(a, x);
            entry_in_map(b, y);
        }
        assert(map_of(af) =~= map_of(bf));
        entries_are_canonical(af, bf);
        assert(a =~= af.push(a.last()));
        assert(b =~= bf.push(b.last()));
    }
}

proof fn front_key(a: Seq<EntryView>, k: Seq<char>)
    requires
        sorted(a),
        a.len() > 0,
    ensures
        has_key(a.drop_last(), k) <==> has_key(a, k) && k != a.last().0,
{
    let f = a.drop_last();
    if has_key(f, k) {
        let i = choose|i: int| 0 <= i < f.len() && (#[trigger] f[i]).0 == k;
        assert(a[i].0 == k);
        assert(text_less(a[i].0, a[a.len() - 1].0));
        text_less_irreflexive(k);
    }
    if has_key(a, k) && k != a.last().0 {
        let i = choose|i: int| 0 <= i < a.len() && (#[trigger] a[i]).0 == k;
        assert(f[i].0 == k);
    }
}

impl TextMap {
    /// Entries in the order of their keys.
    pub closed spec fn list(self) -> Seq<EntryView> {
        entry_views(self.entries@)
    }

    #[verifier::type_invariant]
    spec fn in_order(self) -> bool {
        sorted(self.list())
    }

    /// Create an empty map.
    pub fn new() -> (r: Self)
        ensures
            r@ == Map::<Seq<char>, Seq<char>>::empty(),
            r.list() == Seq::<EntryView>::empty(),
    {
        let r = TextMap { entries: Vec::new() };
        assert(r.list() =~= Seq::<EntryView>::empty());
        assert(r@ =~= Map::<Seq<char>, Seq<char>>::empty());
        r
    }

    /// Number of entries.
    pub fn len(&self) -> (n: usize)
        ensures
            n == self.list().len(),
    {
        self.entries.len()
    }

    /// Whether there are no entries.
    pub fn is_empty(&self) -> (r: bool)
        ensures
            r == (self.list().len() == 0),
            r == (self@.dom() =~= Set::<Seq<char>>::empty()),
    {
        let r = self.entries.len() == 0;
        proof {
            use_type_invariant(self);
            if !r {
                entry_in_map(self.list(), 0);
            }
        }
        r
    }

    /// The entries come in order and are the entries of the map.
    pub proof fn list_is_map(&self)
        ensures
            self@ == map_of(self.list()),
    {
    }

    /// Key of the `i`-th entry.
    pub fn key_at(&self, i: usize) -> (r: &str)
        requires
            i < self.list().len(),
        ensures
            r@ == self.list()[i as int].0,
            sorted(self.list()),
            self@.dom().contains(r@),
    {
        proof {
            use_type_invariant(self);
            entry_in_map(self.list(), i as int);
        }
        self.entries[i].0.as_str()
    }

    /// Value of the `i`-th entry.
    pub fn value_at(&self, i: usize) -> (r: &str)
        requires
            i < self.list().len(),
        ensures
            r@ == self.list()[i as int].1,
            self@[self.list()[i as int].0] == r@,
    {
        proof {
            use_type_invariant(self);
            entry_in_map(self.list(), i as int);
        }
        self.entries[i].1.as_str()
    }

    /// Position of the first entry whose key is not before `key`.
    fn position(&self, key: &str) -> (p: usize)
        ensures
            p <= self.entries@.len(),
            forall|i: int| 0 <= i < p ==> text_less((#[trigger] self.list()[i]).0, key@),
            forall|i: int|
                p <= i < self.list().len() ==> !text_less((#[trigger] self.list()[i]).0, key@),
            sorted(self.list()),
    {
        proof {
            use_type_invariant(self);
        }
        let mut p: usize = 0;
        while p < self.entries.len()
            invariant
                p <= self.entries@.len(),
                sorted(self.list()),
                forall|i: int| 0 <= i < p ==> text_less((#[trigger] self.list()[i]).0, key@),
            decreases self.entries@.len() - p,
        {
            if !comes_before(self.entries[p].0.as_str(), key) {
                proof {
                    assert(!text_less(self.list()[p as int].0, key@));
                    assert forall|i: int| p <= i < self.list().len() implies !text_less(
                        (#[trigger] self.list()[i]).0,
                        key@,
                    ) by {
                        if p < i && text_less(self.list()[i].0, key@) {
                            assert(text_less(self.list()[p as int].0, self.list()[i].0));
                            text_less_transitive(
                                self.list()[p as int].0,
                                self.list()[i].0,
                                key@,
                            );
                        }
                    }
                }
                return p;
            }
            p = p + 1;
        }
        p
    }

    /// Value of `key`, if it has one.
    pub fn get(&self, key: &str) -> (r: Option<&str>)
        ensures
            match r {
                Some(v) => self@.dom().contains(key@) && self@[key@] == v@,
                None => !self@.dom().contains(key@),
            },
    {
        let p = self.position(key);
        if p < self.entries.len() && text::same(self.entries[p].0.as_str(), key) {
            proof {
                entry_in_map(self.list(), p as int);
            }
            return Some(self.entries[p].1.as_str());
        }
        proof {
            if has_key(self.list(), key@) {
                let i = choose|i: int|
                    0 <= i < self.list().len() && (#[trigger] self.list()[i]).0 == key@;
                text_less_irreflexive(key@);
                if i > p {
                    assert(text_less(self.list()[p as int].0, self.list()[i].0));
                }
            }
        }
        None
    }

    /// Whether `key` has a value.
    pub fn contains_key(&self, key: &str) -> (r: bool)
        ensures
            r == self@.dom().contains(key@),
    {
        self.get(key).is_some()
    }

    /// Give `key` a value.
    pub fn insert(&mut self, key: &str, value: &str)
        ensures
            final(self)@ == old(self)@.insert(key@, value@),
    {
        let ghost before = self.list();
        let p = self.position(key);
        let mut entries: Vec<(String, String)> = Vec::new();
        proof {
            assert(entry_views(entries@) =~= Seq::<EntryView>::empty());
        }
        std::mem::swap(&mut entries, &mut self.entries);
        let ghost start = entries@;
        assert(before == entry_views(start));
        let there = p < entries.len() && text::same(entries[p].0.as_str(), key);
        if there {
            let gone = entries.remove(p);
            assert(before[p as int].0 == key@);
        }
        entries.insert(p, (key.to_owned(), value.to_owned()));
        proof {
            let after = entry_views(entries@);
            assert(after.len() == before.len() + if there { 0int } else { 1int });
            assert forall|i: int| 0 <= i < after.len() && i != p implies #[trigger] after[i]
                == before[if i < p || there { i } else { i - 1 }] by {}
            assert(after[p as int] == (key@, value@));
            inserted_entries(before, after, p as int, key@, value@, there);
        }
        self.entries = entries;
    }

    /// Take away the value of `key`.
    pub fn remove(&mut self, key: &str)
        ensures
            final(self)@ == old(self)@.remove(key@),
    {
        let ghost before = self.list();
        let p = self.position(key);
        let mut entries: Vec<(String, String)> = Vec::new();
        proof {
            assert(entry_views(entries@) =~= Seq::<EntryView>::empty());
        }
        std::mem::swap(&mut entries, &mut self.entries);
        assert(before == entry_views(entries@));
        let there = p < entries.len() && text::same(entries[p].0.as_str(), key);
        if there {
            let gone = entries.remove(p);
        }
        proof {
            let after = entry_views(entries@);
            assert(there ==> before[p as int].0 == key@);
            assert(after.len() == before.len() - if there { 1int } else { 0int });
            assert forall|i: int| 0 <= i < after.len() implies #[trigger] after[i] == before[if i
                < p || !there { i } else { i + 1 }] by {}
            removed_entries(before, after, p as int, key@, there);
        }
        self.entries = entries;
    }
}

impl Clone for TextMap {
    fn clone(&self) -> (r: Self)
        ensures
            r@ == self@,
            r.list() == self.list(),
    {
        proof {
            use_type_invariant(self);
        }
        let mut entries: Vec<(String, String)> = Vec::new();
        let mut i: usize = 0;
        while i < self.entries.len()
            invariant
                i <= self.entries@.len(),
                entry_views(entries@) =~= entry_views(self.entries@).take(i as int),
            decreases self.entries@.len() - i,
        {
            let ghost before = entries@;
            let key = self.entries[i].0.clone();
            let value = self.entries[i].1.clone();
            entries.push((key, value));
            assert(entry_views(entries@) =~= entry_views(before).push((key@, value@)));
            i = i + 1;
        }
        assert(entry_views(entries@) =~= entry_views(self.entries@));
        TextMap { entries }
    }
}

/// Replacing or inserting at the place of the key keeps the order and gives
/// the key its value.
proof fn inserted_entries(
    before: Seq<EntryView>,
    after: Seq<EntryView>,
    p: int,
    key: Seq<char>,
    value: Seq<char>,
    there: bool,
)
    requires
        sorted(before),
        0 <= p <= before.len(),
        forall|i: int| 0 <= i < p ==> text_less((#[trigger] before[i]).0, key),
        forall|i: int| p <= i < before.len() ==> !text_less((#[trigger] before[i]).0, key),
        there ==> p < before.len() && before[p].0 == key,
        !there ==> p == before.len() || before[p].0 != key,
        after.len() == before.len() + if there { 0int } else { 1int },
        forall|i: int|
            0 <= i < after.len() && i != p ==> #[trigger] after[i] == before[if i < p || there {
                i
            } else {
                i - 1
            }],
        after[p] == (key, value),
    ensures
        sorted(after),
        map_of(after) == map_of(before).insert(key, value),
{
    assert forall|i: int| p <= i < before.len() && (there ==> i > p) implies text_less(
        key,
        (#[trigger] before[i]).0,
    ) by {
        text_less_total(key, before[i].0);
        if before[i].0 == key {
            if i > p {
                assert(text_less(before[p].0, before[i].0));
            }
        }
    }
    assert forall|i: int, j: int| 0 <= i < j < after.len() implies text_less(
        (#[trigger] after[i]).0,
        (#[trigger] after[j]).0,
    ) by {
        let bi = if i < p || there { i } else { i - 1 };
        let bj = if j < p || there { j } else { j - 1 };
        if i == p {
            assert(after[j] == before[bj]);
        } else if j == p {
            assert(after[i] == before[bi]);
        } else {
            assert(after[i] == before[bi] && after[j] == before[bj]);
        }
    }
    assert forall|k: Seq<char>| has_key(after, k) <==> has_key(before, k) || k == key by {
        if has_key(after, k) {
            let i = choose|i: int| 0 <= i < after.len() && (#[trigger] after[i]).0 == k;
            if i != p {
                assert(before[if i < p || there { i } else { i - 1 }].0 == k);
            }
        }
        if has_key(before, k) {
            let i = choose|i: int| 0 <= i < before.len() && (#[trigger] before[i]).0 == k;
            let a = if i < p || there { i } else { i + 1 };
            if a != p {
                assert(after[a] == before[i]);
            } else {
                assert(after[p].0 == key);
            }
        }
        if k == key {
            assert(after[p].0 == k);
        }
    }
    assert forall|k: Seq<char>| has_key(after, k) implies map_of(after)[k] == map_of(before).insert(
        key,
        value,
    )[k] by {
        let i = choose|i: int| 0 <= i < after.len() && (#[trigger] after[i]).0 == k;
        entry_in_map(after, i);
        if i == p {
            assert(after[p] == (key, value));
        } else {
            let b = if i < p || there { i } else { i - 1 };
            assert(after[i] == before[b]);
            entry_in_map(before, b);
            assert(after[p].0 == key);
            text_less_irreflexive(key);
            if i < p {
                assert(text_less(after[i].0, after[p].0));
            } else {
                assert(text_less(after[p].0, after[i].0));
            }
        }
    }
    assert(map_of(after) =~= map_of(before).insert(key, value));
}

/// Removing the entry of a key keeps the order and takes its value away.
proof fn removed_entries(
    before: Seq<EntryView>,
    after: Seq<EntryView>,
    p: int,
    key: Seq<char>,
    there: bool,
)
    requires
        sorted(before),
        0 <= p <= before.len(),
        forall|i: int| 0 <= i < p ==> text_less((#[trigger] before[i]).0, key),
        there ==> p < before.len() && before[p].0 == key,
        !there ==> p == before.len() || before[p].0 != key,
        forall|i: int| p <= i < before.len() ==> !text_less((#[trigger] before[i]).0, key),
        after.len() == before.len() - if there { 1int } else { 0int },
        forall|i: int|
            0 <= i < after.len() ==> #[trigger] after[i] == before[if i < p || !there {
                i
            } else {
                i + 1
            }],
    ensures
        sorted(after),
        map_of(after) == map_of(before).remove(key),
{
    text_less_irreflexive(key);
    assert forall|i: int, j: int| 0 <= i < j < after.len() implies text_less(
        (#[trigger] after[i]).0,
        (#[trigger] after[j]).0,
    ) by {
        assert(text_less(
            before[if i < p || !there { i } else { i + 1 }].0,
            before[if j < p || !there { j } else { j + 1 }].0,
        ));
    }
    assert forall|i: int| 0 <= i < before.len() && (#[trigger] before[i]).0 == key implies there && i
        == p by {
        if i > p {
            assert(text_less(before[p].0, before[i].0));
        }
    }
    assert forall|k: Seq<char>| has_key(after, k) <==> has_key(before, k) && k != key by {
        if has_key(after, k) {
            let i = choose|i: int| 0 <= i < after.len() && (#[trigger] after[i]).0 == k;
            let b = if i < p || !there { i } else { i + 1 };
            assert(before[b].0 == k);
        }
        if has_key(before, k) && k != key {
            let i = choose|i: int| 0 <= i < before.len() && (#[trigger] before[i]).0 == k;
            let a = if i < p || !there { i } else { i - 1 };
            assert(after[a] == before[i]);
        }
    }
    assert forall|k: Seq<char>| has_key(after, k) implies map_of(after)[k] == map_of(before)[k] by {
        let i = choose|i: int| 0 <= i < after.len() && (#[trigger] after[i]).0 == k;
        entry_in_map(after, i);
        entry_in_map(before, if i < p || !there { i } else { i + 1 });
    }
    assert(map_of(after) =~= map_of(before).remove(key));
}

/// Texts are ordered by the first character in which they differ; a text comes
/// before its continuations.
pub proof fn first_difference_decides(
    p: Seq<char>,
    x: char,
    y: char,
    s: Seq<char>,
    t: Seq<char>,
)
    ensures
        x < y ==> text_less(p + (seq![x] + s), p + (seq![y] + t)),
        x < y ==> !text_less(p + (seq![y] + t), p + (seq![x] + s)),
        text_less(p, p + (seq![x] + s)),
        !text_less(p + (seq![x] + s), p),
    decreases p.len(),
{
    let a = p + (seq![x] + s);
    let b = p + (seq![y] + t);
    if p.len() == 0 {
        assert(a[0] == x && b[0] == y);
    } else {
        assert(a[0] == p[0] && b[0] == p[0]);
        assert(a.drop_first() =~= p.drop_first() + (seq![x] + s));
        assert(b.drop_first() =~= p.drop_first() + (seq![y] + t));
        first_difference_decides(p.drop_first(), x, y, s, t);
    }
}

} // verus!
