//! A table of records kept sorted by a two-part string key.
//!
//! This is the shape of every persistent table of the contract: each key
//! occurs at most once, and the records can be walked in key order from any
//! starting key.

use vstd::prelude::*;
use crate::order::{
    compare_str, key_lt, lemma_key_lt_irreflexive, lemma_key_lt_total, lemma_key_lt_transitive,
    Rank,
};

verus! {

/// The mathematical value of a key: its two parts as character sequences.
pub type KeyView = (Seq<char>, Seq<char>);

/// A key of one or two string parts. A table keyed by a single string leaves
/// the second part empty.
#[derive(Debug)]
pub struct Key {
    pub head: String,
    pub tail: String,
}

impl View for Key {
    type V = KeyView;

    open spec fn view(&self) -> KeyView {
        (self.head@, self.tail@)
    }
}

impl Key {
    /// A key of a single part.
    pub fn single(head: &String) -> (r: Key)
        ensures
            r@ == (head@, Seq::<char>::empty()),
    {
        Key { head: head.clone(), tail: String::new() }
    }

    /// A key of two parts.
    pub fn pair(head: &String, tail: &String) -> (r: Key)
        ensures
            r@ == (head@, tail@),
    {
        Key { head: head.clone(), tail: tail.clone() }
    }

    /// Where this key stands relative to `other` in key order.
    pub fn compare(&self, other: &Key) -> (r: Rank)
        ensures
            r == Rank::Before <==> key_lt(self@, other@),
            r == Rank::Same <==> self@ == other@,
            r == Rank::After <==> key_lt(other@, self@),
    {
        proof {
            lemma_key_lt_irreflexive(self@);
            lemma_key_lt_total(self@, other@);
            if key_lt(self@, other@) && key_lt(other@, self@) {
                lemma_key_lt_transitive(self@, other@, self@);
            }
        }
        match compare_str(self.head.as_str(), other.head.as_str()) {
            Rank::Before => Rank::Before,
            Rank::After => Rank::After,
            Rank::Same => compare_str(self.tail.as_str(), other.tail.as_str()),
        }
    }
}

/// Keys strictly increase along the sequence.
pub open spec fn sorted<T>(s: Seq<(KeyView, T)>) -> bool {
    forall|i: int, j: int| 0 <= i < j < s.len() ==> key_lt(#[trigger] s[i].0, #[trigger] s[j].0)
}

/// The key occurs in the sequence.
pub open spec fn has_key<T>(s: Seq<(KeyView, T)>, k: KeyView) -> bool {
    exists|i: int| 0 <= i < s.len() && #[trigger] s[i].0 == k
}

/// The finite map that a sequence of keyed records stands for.
pub open spec fn map_of<T>(s: Seq<(KeyView, T)>) -> Map<KeyView, T> {
    Map::new(
        |k: KeyView| has_key(s, k),
        |k: KeyView| s[choose|i: int| 0 <= i < s.len() && #[trigger] s[i].0 == k].1,
    )
}

/// In a sorted sequence each key occurs once, so the map holds every record.
pub proof fn lemma_map_of_index<T>(s: Seq<(KeyView, T)>, i: int)
    requires
        sorted(s),
        0 <= i < s.len(),
    ensures
        map_of(s).contains_key(s[i].0),
        map_of(s)[s[i].0] == s[i].1,
{
    let k = s[i].0;
    let j = choose|j: int| 0 <= j < s.len() && #[trigger] s[j].0 == k;
    lemma_key_lt_irreflexive(k);
    if j < i {
        assert(key_lt(s[j].0, s[i].0));
    } else if i < j {
        assert(key_lt(s[i].0, s[j].0));
    }
}

/// Putting a record with a fresh key anywhere into a sequence adds it to the map.
pub proof fn lemma_map_of_insert<T>(s: Seq<(KeyView, T)>, i: int, k: KeyView, v: T)
    requires
        sorted(s),
        sorted(s.insert(i, (k, v))),
        0 <= i <= s.len(),
    ensures
        map_of(s.insert(i, (k, v))) == map_of(s).insert(k, v),
{
    let t = s.insert(i, (k, v));
    assert forall|q: KeyView| #[trigger]
        map_of(t).contains_key(q) <==> map_of(s).insert(k, v).contains_key(q) by {
        if map_of(t).contains_key(q) {
            let j = choose|j: int| 0 <= j < t.len() && #[trigger] t[j].0 == q;
            if j < i {
                assert(s[j].0 == q);
            } else if j > i {
                assert(s[j - 1].0 == q);
            }
        }
        if map_of(s).contains_key(q) {
            let j = choose|j: int| 0 <= j < s.len() && #[trigger] s[j].0 == q;
            if j < i {
                assert(t[j].0 == q);
            } else {
                assert(t[j + 1].0 == q);
            }
        }
        if q == k {
            assert(t[i].0 == q);
        }
    }
    assert forall|q: KeyView| #[trigger] map_of(t).contains_key(q) implies map_of(t)[q]
        == map_of(s).insert(k, v)[q] by {
        let j = choose|j: int| 0 <= j < t.len() && #[trigger] t[j].0 == q;
        lemma_map_of_index(t, j);
        if j < i {
            lemma_map_of_index(s, j);
            lemma_map_of_index(t, i);
            lemma_key_lt_irreflexive(k);
            assert(key_lt(t[j].0, t[i].0));
        } else if j > i {
            lemma_map_of_index(s, j - 1);
            lemma_key_lt_irreflexive(k);
            assert(key_lt(t[i].0, t[j].0));
        }
    }
    assert(map_of(t) =~= map_of(s).insert(k, v));
}

/// Replacing the value of a record replaces it in the map.
pub proof fn lemma_map_of_update<T>(s: Seq<(KeyView, T)>, i: int, v: T)
    requires
        sorted(s),
        0 <= i < s.len(),
    ensures
        sorted(s.update(i, (s[i].0, v))),
        map_of(s.update(i, (s[i].0, v))) == map_of(s).insert(s[i].0, v),
{
    let k = s[i].0;
    let t = s.update(i, (k, v));
    assert(t.len() == s.len());
    assert forall|a: int, b: int| 0 <= a < b < t.len() implies key_lt(
        #[trigger] t[a].0,
        #[trigger] t[b].0,
    ) by {
        assert(key_lt(s[a].0, s[b].0));
    }
    assert forall|q: KeyView| #[trigger]
        map_of(t).contains_key(q) <==> map_of(s).insert(k, v).contains_key(q) by {
        if map_of(t).contains_key(q) {
            let j = choose|j: int| 0 <= j < t.len() && #[trigger] t[j].0 == q;
            assert(s[j].0 == q);
        }
        if map_of(s).contains_key(q) {
            let j = choose|j: int| 0 <= j < s.len() && #[trigger] s[j].0 == q;
            assert(t[j].0 == q);
        }
        if q == k {
            assert(t[i].0 == q);
        }
    }
    assert forall|q: KeyView| #[trigger] map_of(t).contains_key(q) implies map_of(t)[q]
        == map_of(s).insert(k, v)[q] by {
        let j = choose|j: int| 0 <= j < t.len() && #[trigger] t[j].0 == q;
        lemma_map_of_index(t, j);
        if j != i {
            lemma_map_of_index(s, j);
            lemma_key_lt_irreflexive(k);
            if j < i {
                assert(key_lt(s[j].0, s[i].0));
            } else {
                assert(key_lt(s[i].0, s[j].0));
            }
        }
    }
    assert(map_of(t) =~= map_of(s).insert(k, v));
}

/// The records whose key comes strictly after `start`, in order; all of them
/// where there is no `start`.
pub open spec fn after<T>(s: Seq<(KeyView, T)>, start: Option<KeyView>) -> Seq<(KeyView, T)> {
    match start {
        None => s,
        Some(k) => s.filter(|e: (KeyView, T)| key_lt(k, e.0)),
    }
}

/// The first `limit` items of a sequence, or all of it where it has fewer.
pub open spec fn page<T>(s: Seq<T>, limit: nat) -> Seq<T> {
    if s.len() <= limit {
        s
    } else {
        s.take(limit as int)
    }
}

/// A filter that rejects everything before position `i` and accepts
/// everything from there on keeps exactly the part from `i` on.
pub proof fn lemma_filter_suffix<T>(s: Seq<T>, p: spec_fn(T) -> bool, i: int)
    requires
        0 <= i <= s.len(),
        forall|j: int| 0 <= j < i ==> !p(#[trigger] s[j]),
        forall|j: int| i <= j < s.len() ==> p(#[trigger] s[j]),
    ensures
        s.filter(p) == s.subrange(i, s.len() as int),
    decreases s.len(),
{
    reveal(Seq::filter);
    if s.len() > 0 {
        let t = s.drop_last();
        if i == s.len() {
            lemma_filter_suffix(t, p, i - 1);
            assert(s.filter(p) =~= s.subrange(i, s.len() as int));
        } else {
            lemma_filter_suffix(t, p, i);
            assert(s.filter(p) =~= s.subrange(i, s.len() as int));
        }
    } else {
        assert(s.filter(p) =~= s.subrange(i, s.len() as int));
    }
}

/// In a sorted sequence the records after a key are those from some
/// position on.
pub proof fn lemma_after_is_suffix<T>(s: Seq<(KeyView, T)>, k: KeyView) -> (lo: int)
    requires
        sorted(s),
    ensures
        0 <= lo <= s.len(),
        forall|j: int| 0 <= j < lo ==> !key_lt(k, #[trigger] s[j].0),
        forall|j: int| lo <= j < s.len() ==> key_lt(k, #[trigger] s[j].0),
        after(s, Some(k)) == s.subrange(lo, s.len() as int),
    decreases s.len(),
{
    let p = |e: (KeyView, T)| key_lt(k, e.0);
    if s.len() == 0 {
        lemma_filter_suffix(s, p, 0);
        0
    } else {
        let t = s.drop_last();
        assert forall|i: int, j: int| 0 <= i < j < t.len() implies key_lt(
            #[trigger] t[i].0,
            #[trigger] t[j].0,
        ) by {
            assert(key_lt(s[i].0, s[j].0));
        }
        let lo = lemma_after_is_suffix(t, k);
        let hi = if key_lt(k, s.last().0) {
            lo
        } else {
            s.len() as int
        };
        assert forall|j: int| 0 <= j < hi implies !key_lt(k, #[trigger] s[j].0) by {
            if j < lo {
                assert(t[j] == s[j]);
            } else if j < s.len() - 1 {
                assert(t[j] == s[j]);
                assert(key_lt(s[j].0, s.last().0));
                lemma_key_lt_transitive(k, s[j].0, s.last().0);
            }
        }
        assert forall|j: int| hi <= j < s.len() implies key_lt(k, #[trigger] s[j].0) by {
            if j < s.len() - 1 {
                assert(t[j] == s[j]);
            }
        }
        lemma_filter_suffix(s, p, hi);
        hi
    }
}

/// A listing can be resumed: where a page is followed by the page that
/// starts after its last key, the two together are the longer page.
pub proof fn lemma_pages_join<T>(
    s: Seq<(KeyView, T)>,
    start: Option<KeyView>,
    first: nat,
    second: nat,
)
    requires
        sorted(s),
        page(after(s, start), first).len() > 0,
    ensures
        page(after(s, start), first + second) == page(after(s, start), first) + page(
            after(s, Some(page(after(s, start), first).last().0)),
            second,
        ),
{
    let lo = match start {
        Some(k) => lemma_after_is_suffix(s, k),
        None => 0,
    };
    let n = s.len() as int;
    assert(after(s, start) =~= s.subrange(lo, n));
    let rest = after(s, start);
    let head = page(rest, first);
    let cut = lo + head.len();
    assert(head =~= s.subrange(lo, cut));
    let last = head.last().0;
    assert(last == s[cut - 1].0);
    let p = |e: (KeyView, T)| key_lt(last, e.0);
    lemma_key_lt_irreflexive(last);
    assert forall|j: int| 0 <= j < cut implies !p(#[trigger] s[j]) by {
        if j < cut - 1 {
            assert(key_lt(s[j].0, s[cut - 1].0));
            if key_lt(last, s[j].0) {
                lemma_key_lt_transitive(last, s[j].0, last);
            }
        }
    }
    assert forall|j: int| cut <= j < n implies p(#[trigger] s[j]) by {
        assert(key_lt(s[cut - 1].0, s[j].0));
    }
    lemma_filter_suffix(s, p, cut);
    let tail = page(after(s, Some(last)), second);
    assert(page(rest, first + second) =~= head + tail);
}

/// A table of values of type `V`, sorted by key.
#[derive(Debug)]
pub struct Table<V> {
    keys: Vec<Key>,
    values: Vec<V>,
}

impl<V: View> Table<V> {
    /// The records of the table in key order.
    pub closed spec fn entries(&self) -> Seq<(KeyView, V::V)> {
        Seq::new(self.keys@.len(), |i: int| (self.keys@[i]@, self.values@[i]@))
    }

    /// The table holds one value per key and its keys strictly increase.
    pub closed spec fn wf(&self) -> bool {
        &&& self.keys@.len() == self.values@.len()
        &&& sorted(self.entries())
    }

    /// The table as a finite map from keys to values.
    pub open spec fn view(&self) -> Map<KeyView, V::V> {
        map_of(self.entries())
    }

    /// What well-formedness says of the records.
    pub proof fn lemma_sorted(&self)
        requires
            self.wf(),
        ensures
            sorted(self.entries()),
    {
    }

    /// A table without records.
    pub fn new() -> (r: Self)
        ensures
            r.wf(),
            r.entries() == Seq::<(KeyView, V::V)>::empty(),
            r@ == Map::<KeyView, V::V>::empty(),
    {
        let r = Table { keys: Vec::new(), values: Vec::new() };
        assert(r.entries() =~= Seq::<(KeyView, V::V)>::empty());
        assert(r@ =~= Map::<KeyView, V::V>::empty());
        r
    }

    /// The number of records.
    pub fn len(&self) -> (n: usize)
        requires
            self.wf(),
        ensures
            n == self.entries().len(),
    {
        self.keys.len()
    }

    /// The key of the record at position `i`.
    pub(crate) fn key_at(&self, i: usize) -> (k: &Key)
        requires
            self.wf(),
            i < self.entries().len(),
        ensures
            k@ == self.entries()[i as int].0,
    {
        &self.keys[i]
    }

    /// The value of the record at position `i`.
    pub(crate) fn value_at(&self, i: usize) -> (v: &V)
        requires
            self.wf(),
            i < self.entries().len(),
        ensures
            v@ == self.entries()[i as int].1,
    {
        &self.values[i]
    }

    /// The position of the first record whose key is not before `key`, and
    /// whether that record has exactly this key.
    pub(crate) fn locate(&self, key: &Key) -> (r: (usize, bool))
        requires
            self.wf(),
        ensures
            r.0 <= self.entries().len(),
            forall|j: int| 0 <= j < r.0 ==> key_lt(#[trigger] self.entries()[j].0, key@),
            forall|j: int|
                r.0 + (if r.1 { 1int } else { 0int }) <= j < self.entries().len() ==> key_lt(
                    key@,
                    #[trigger] self.entries()[j].0,
                ),
            r.1 ==> r.0 < self.entries().len() && self.entries()[r.0 as int].0 == key@,
            r.1 <==> self@.contains_key(key@),
    {
        let mut i: usize = 0;
        let mut found: bool = false;
        let mut done: bool = false;
        while i < self.keys.len() && !done
            invariant
                self.wf(),
                i <= self.entries().len(),
                forall|j: int| 0 <= j < i ==> key_lt(#[trigger] self.entries()[j].0, key@),
                done ==> i < self.entries().len() && !key_lt(self.entries()[i as int].0, key@),
                found ==> done && self.entries()[i as int].0 == key@,
                done && !found ==> key_lt(key@, self.entries()[i as int].0),
            decreases self.entries().len() - i + (if done { 0int } else { 1int }),
        {
            match self.keys[i].compare(key) {
                Rank::Before => {
                    i = i + 1;
                },
                Rank::Same => {
                    proof {
                        lemma_key_lt_irreflexive(key@);
                    }
                    found = true;
                    done = true;
                },
                Rank::After => {
                    proof {
                        lemma_key_lt_irreflexive(key@);
                        if key_lt(self.entries()[i as int].0, key@) {
                            lemma_key_lt_transitive(key@, self.entries()[i as int].0, key@);
                        }
                    }
                    done = true;
                },
            }
        }
        proof {
            let s = self.entries();
            let first: int = i + (if found { 1int } else { 0int });
            assert forall|j: int| first <= j < s.len() implies key_lt(key@, #[trigger] s[j].0) by {
                if found {
                    assert(key_lt(s[i as int].0, s[j].0));
                } else if j > i {
                    assert(key_lt(s[i as int].0, s[j].0));
                    lemma_key_lt_transitive(key@, s[i as int].0, s[j].0);
                }
            }
            if !found && self@.contains_key(key@) {
                let j = choose|j: int| 0 <= j < s.len() && #[trigger] s[j].0 == key@;
                lemma_key_lt_irreflexive(key@);
            }
            if found {
                assert(s[i as int].0 == key@);
            }
        }
        (i, found)
    }

    /// The value stored under `key`, if any.
    pub fn get(&self, key: &Key) -> (r: Option<&V>)
        requires
            self.wf(),
        ensures
            match r {
                Some(v) => self@.contains_key(key@) && self@[key@] == v@,
                None => !self@.contains_key(key@),
            },
    {
        let (i, found) = self.locate(key);
        if found {
            proof {
                lemma_map_of_index(self.entries(), i as int);
            }
            Some(&self.values[i])
        } else {
            None
        }
    }

    /// Adds a record under a key that the table does not hold yet. Returns
    /// `false`, and changes nothing, when the key is taken.
    pub fn insert(&mut self, key: Key, value: V) -> (added: bool)
        requires
            old(self).wf(),
        ensures
            final(self).wf(),
            added == !old(self)@.contains_key(key@),
            added ==> final(self)@ == old(self)@.insert(key@, value@),
            !added ==> final(self).entries() == old(self).entries(),
    {
        let (i, found) = self.locate(&key);
        if found {
            return false;
        }
        let ghost s = self.entries();
        let ghost k = key@;
        let ghost v = value@;
        self.keys.insert(i, key);
        self.values.insert(i, value);
        proof {
            let t = self.entries();
            assert(t =~= s.insert(i as int, (k, v)));
            assert forall|a: int, b: int| 0 <= a < b < t.len() implies key_lt(
                #[trigger] t[a].0,
                #[trigger] t[b].0,
            ) by {
                if b < i {
                    assert(key_lt(s[a].0, s[b].0));
                } else if b == i {
                    assert(key_lt(s[a].0, k));
                } else if a < i {
                    assert(key_lt(s[a].0, s[b - 1].0));
                } else if a == i {
                    assert(key_lt(k, s[b - 1].0));
                } else {
                    assert(key_lt(s[a - 1].0, s[b - 1].0));
                }
            }
            lemma_map_of_insert(s, i as int, k, v);
        }
        true
    }

    /// Replaces the value of the record at position `i`.
    pub(crate) fn set_value(&mut self, i: usize, value: V)
        requires
            old(self).wf(),
            i < old(self).entries().len(),
        ensures
            final(self).wf(),
            final(self).entries() == old(self).entries().update(
                i as int,
                (old(self).entries()[i as int].0, value@),
            ),
            final(self)@ == old(self)@.insert(old(self).entries()[i as int].0, value@),
    {
        let ghost s = self.entries();
        let ghost v = value@;
        self.values.set(i, value);
        proof {
            assert(self.entries() =~= s.update(i as int, (s[i as int].0, v)));
            lemma_map_of_update(s, i as int, v);
        }
    }

    /// Adds a record whose key comes after every key of the table.
    pub(crate) fn append(&mut self, key: Key, value: V)
        requires
            old(self).wf(),
            old(self).entries().len() > 0 ==> key_lt(old(self).entries().last().0, key@),
        ensures
            final(self).wf(),
            final(self).entries() == old(self).entries().push((key@, value@)),
    {
        let ghost s = self.entries();
        let ghost k = key@;
        let ghost v = value@;
        self.keys.push(key);
        self.values.push(value);
        proof {
            let t = self.entries();
            assert(t =~= s.push((k, v)));
            assert forall|a: int, b: int| 0 <= a < b < t.len() implies key_lt(
                #[trigger] t[a].0,
                #[trigger] t[b].0,
            ) by {
                if b < s.len() {
                    assert(key_lt(s[a].0, s[b].0));
                } else if a < s.len() - 1 {
                    assert(key_lt(s[a].0, s[s.len() - 1].0));
                    lemma_key_lt_transitive(s[a].0, s.last().0, k);
                }
            }
        }
    }

    /// The positions `lo..hi` of the records that one page of a listing
    /// holds: those that come strictly after `start_after`, `limit` at most.
    pub(crate) fn range_after(&self, start_after: Option<&Key>, limit: usize) -> (r: (usize, usize))
        requires
            self.wf(),
        ensures
            r.0 <= r.1 <= self.entries().len(),
            r.1 - r.0 == if self.entries().len() - r.0 <= limit {
                self.entries().len() - r.0
            } else {
                limit as int
            },
            start_after is None ==> r.0 == 0,
            start_after matches Some(k) ==> {
                &&& forall|j: int| 0 <= j < r.0 ==> !key_lt(k@, #[trigger] self.entries()[j].0)
                &&& forall|j: int|
                    r.0 <= j < self.entries().len() ==> key_lt(k@, #[trigger] self.entries()[j].0)
            },
            self.entries().subrange(r.0 as int, r.1 as int) == page(
                after(
                    self.entries(),
                    match start_after {
                        Some(k) => Some(k@),
                        None => None,
                    },
                ),
                limit as nat,
            ),
    {
        let n = self.keys.len();
        let lo: usize = match start_after {
            None => {
                proof {
                    assert(self.entries().subrange(0, n as int) =~= self.entries());
                }
                0
            },
            Some(k) => {
                let (i, found) = self.locate(k);
                let first: usize = if found { i + 1 } else { i };
                proof {
                    let s = self.entries();
                    let p = |e: (KeyView, V::V)| key_lt(k@, e.0);
                    lemma_key_lt_irreflexive(k@);
                    assert forall|j: int| 0 <= j < first implies !p(#[trigger] s[j]) by {
                        if j < i && key_lt(k@, s[j].0) {
                            lemma_key_lt_transitive(k@, s[j].0, k@);
                        }
                    }
                    lemma_filter_suffix(s, p, first as int);
                }
                first
            },
        };
        let hi: usize = if n - lo <= limit { n } else { lo + limit };
        proof {
            let rest = self.entries().subrange(lo as int, n as int);
            if n - lo > limit {
                assert(rest.take(limit as int) =~= self.entries().subrange(lo as int, hi as int));
            }
        }
        (lo, hi)
    }
}

} // verus!
