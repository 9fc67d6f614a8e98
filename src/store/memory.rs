use vstd::prelude::*;
use vstd::utf8::{encode_utf8, encode_utf8_decode_utf8};

use crate::score::{is_nan_bits, nan_bits, order_key, total_order_key, Score};
use super::StoreError;

verus! {

#[verifier::external_type_specification]
#[verifier::external_body]
#[verifier::reject_recursive_types(K)]
#[verifier::reject_recursive_types(V)]
#[verifier::reject_recursive_types(S)]
pub struct ExDashMap<K, V, S>(dashmap::DashMap<K, V, S>);

/// What a score table holds: each key's view mapped to its score.
pub uninterp spec fn table_contents(m: dashmap::DashMap<String, Score>) -> Map<Seq<char>, Score>;

/// Relies on `dashmap::DashMap::new`: a map created with capacity 0 holds nothing.
#[verifier::external_body]
fn table_new() -> (r: dashmap::DashMap<String, Score>)
    ensures
        table_contents(r).dom() == Set::<Seq<char>>::empty(),
{
    dashmap::DashMap::new()
}

/// Relies on `dashmap::DashMap::insert`: the key is bound to the value,
/// replacing any earlier value; the other keys keep theirs.
#[verifier::external_body]
fn table_insert(m: &mut dashmap::DashMap<String, Score>, key: String, value: Score)
    ensures
        table_contents(*final(m)) == table_contents(*old(m)).insert(key@, value),
{
    m.insert(key, value);
}

/// Relies on `dashmap::DashMap::get`: the value bound to the key, if any.
#[verifier::external_body]
fn table_get(m: &dashmap::DashMap<String, Score>, key: &str) -> (r: Option<Score>)
    ensures
        r == (if table_contents(*m).contains_key(key@) {
            Some(table_contents(*m)[key@])
        } else {
            None
        }),
{
    m.get(key).map(|entry| *entry.value())
}

/// Relies on `dashmap::DashMap::iter`: every entry exactly once, in an order
/// that the map does not fix.
#[verifier::external_body]
fn table_entries(m: &dashmap::DashMap<String, Score>) -> (r: Vec<(String, Score)>)
    ensures
        forall|i: int|
            0 <= i < r@.len() ==> #[trigger] table_contents(*m).contains_key(r@[i].0@)
                && table_contents(*m)[r@[i].0@] == r@[i].1,
        forall|i: int, j: int|
            0 <= i < j < r@.len() ==> #[trigger] r@[i].0@ != #[trigger] r@[j].0@,
        forall|k: Seq<char>|
            #[trigger] table_contents(*m).contains_key(k) ==> exists|i: int|
                0 <= i < r@.len() && #[trigger] r@[i].0@ == k,
{
    m.iter().map(|entry| (entry.key().clone(), *entry.value())).collect()
}

/// `a` comes before `b` in lexicographic byte order, looking from index `i` on.
pub open spec fn bytes_before_from(a: Seq<u8>, b: Seq<u8>, i: int) -> bool
    decreases a.len() - i,
{
    if i < 0 || i >= a.len() {
        i < b.len()
    } else if i >= b.len() {
        false
    } else if a[i] != b[i] {
        a[i] < b[i]
    } else {
        bytes_before_from(a, b, i + 1)
    }
}

/// `a` comes strictly before `b` in lexicographic byte order.
pub open spec fn bytes_before(a: Seq<u8>, b: Seq<u8>) -> bool {
    bytes_before_from(a, b, 0)
}

/// Key `a` is ordered before key `b`: by the bytes of their UTF-8 encodings.
pub open spec fn key_before(a: Seq<char>, b: Seq<char>) -> bool {
    bytes_before(encode_utf8(a), encode_utf8(b))
}

proof fn lemma_before_from_total(a: Seq<u8>, b: Seq<u8>, i: int)
    requires
        0 <= i <= a.len(),
        i <= b.len(),
        forall|j: int| 0 <= j < i ==> a[j] == b[j],
    ensures
        bytes_before_from(a, b, i) || bytes_before_from(b, a, i) || a =~= b,
        !(bytes_before_from(a, b, i) && bytes_before_from(b, a, i)),
    decreases a.len() - i,
{
    if i < a.len() && i < b.len() && a[i] == b[i] {
        lemma_before_from_total(a, b, i + 1);
    }
}

proof fn lemma_before_from_trans(a: Seq<u8>, b: Seq<u8>, c: Seq<u8>, i: int)
    requires
        0 <= i,
        bytes_before_from(a, b, i),
        bytes_before_from(b, c, i),
    ensures
        bytes_before_from(a, c, i),
    decreases a.len() - i,
{
    if i < a.len() && i < b.len() && i < c.len() && a[i] == b[i] && b[i] == c[i] {
        lemma_before_from_trans(a, b, c, i + 1);
    }
}

/// Lexicographic byte order is total: of two different keys one comes first.
proof fn lemma_key_order_total(a: Seq<char>, b: Seq<char>)
    ensures
        key_before(a, b) || key_before(b, a) || encode_utf8(a) == encode_utf8(b),
        !(key_before(a, b) && key_before(b, a)),
{
    lemma_before_from_total(encode_utf8(a), encode_utf8(b), 0);
}

/// Lexicographic byte order is transitive.
proof fn lemma_key_order_trans(a: Seq<char>, b: Seq<char>, c: Seq<char>)
    requires
        key_before(a, b),
        key_before(b, c),
    ensures
        key_before(a, c),
{
    lemma_before_from_trans(encode_utf8(a), encode_utf8(b), encode_utf8(c), 0);
}

/// Compares two strings by the bytes of their UTF-8 encodings.
fn key_precedes(a: &String, b: &String) -> (r: bool)
    ensures
        r == key_before(a@, b@),
{
    let x = a.as_str().as_bytes();
    let y = b.as_str().as_bytes();
    let mut i: usize = 0;
    while i < x.len() && i < y.len() && x[i] == y[i]
        invariant
            x@ == encode_utf8(a@),
            y@ == encode_utf8(b@),
            0 <= i <= x@.len(),
            i <= y@.len(),
            bytes_before_from(x@, y@, i as int) == bytes_before(x@, y@),
        decreases x.len() - i,
    {
        i = i + 1;
    }
    if i >= x.len() {
        i < y.len()
    } else if i >= y.len() {
        false
    } else {
        x[i] < y[i]
    }
}

/// `k` is a best key of table `t`: its score is not NaN and is highest in
/// the total order among the scores that are not NaN, and among the keys with
/// that same score it comes first in byte order.
pub open spec fn is_best_key(t: Map<Seq<char>, Score>, k: Seq<char>) -> bool {
    &&& t.contains_key(k)
    &&& !is_nan_bits(t[k].score_bits)
    &&& forall|o: Seq<char>|
        #[trigger] t.contains_key(o) && !is_nan_bits(t[o].score_bits) ==> order_key(
            t[o].score_bits,
        ) <= order_key(t[k].score_bits)
    &&& forall|o: Seq<char>|
        #[trigger] t.contains_key(o) && !is_nan_bits(t[o].score_bits) && order_key(
            t[o].score_bits,
        ) == order_key(t[k].score_bits) && o != k ==> key_before(k, o)
}

/// Some key of the table holds a score that is not NaN.
pub open spec fn has_ranked_key(t: Map<Seq<char>, Score>) -> bool {
    exists|k: Seq<char>| #[trigger] t.contains_key(k) && !is_nan_bits(t[k].score_bits)
}

/// In-process score store over a concurrent hash map.
pub struct Memory {
    inner: dashmap::DashMap<String, Score>,
}

impl Default for Memory {
    /// An empty store.
    fn default() -> (r: Memory)
        ensures
            r.view().dom() == Set::<Seq<char>>::empty(),
    {
        Memory::new()
    }
}

impl Memory {
    /// The scores held, by key.
    pub closed spec fn view(&self) -> Map<Seq<char>, Score> {
        table_contents(self.inner)
    }

    /// An empty store.
    pub fn new() -> (r: Memory)
        ensures
            r.view().dom() == Set::<Seq<char>>::empty(),
    {
        Memory { inner: table_new() }
    }

    /// Binds `key` to `value`, replacing any earlier score of that key.
    pub fn set(&mut self, key: String, value: Score) -> (r: Result<(), StoreError>)
        ensures
            r is Ok,
            final(self).view() == old(self).view().insert(key@, value),
    {
        table_insert(&mut self.inner, key, value);
        Ok(())
    }

    /// The score bound to `key`, if any.
    pub fn get(&self, key: &str) -> (r: Result<Option<Score>, StoreError>)
        ensures
            r == Ok::<Option<Score>, StoreError>(
                if self.view().contains_key(key@) {
                    Some(self.view()[key@])
                } else {
                    None
                },
            ),
    {
        Ok(table_get(&self.inner, key))
    }

    /// The key with the highest score. Scores that are NaN take no part;
    /// among equal scores the key that comes first in byte order wins.
    /// `None` when no key holds a score that is not NaN.
    pub fn best_url(&self) -> (r: Result<Option<String>, StoreError>)
        ensures
            match r {
                Ok(Some(k)) => is_best_key(self.view(), k@),
                Ok(None) => !has_ranked_key(self.view()),
                Err(_) => false,
            },
            self.view().dom() == Set::<Seq<char>>::empty() ==> r matches Ok(None),
    {
        let entries = table_entries(&self.inner);
        let ghost t = self.view();
        let mut best: Option<usize> = None;
        let mut i: usize = 0;
        while i < entries.len()
            invariant
                0 <= i <= entries@.len(),
                t == self.view(),
                forall|j: int|
                    0 <= j < entries@.len() ==> #[trigger] t.contains_key(entries@[j].0@)
                        && t[entries@[j].0@] == entries@[j].1,
                forall|a: int, b: int|
                    0 <= a < b < entries@.len() ==> #[trigger] entries@[a].0@
                        != #[trigger] entries@[b].0@,
                forall|k: Seq<char>|
                    #[trigger] t.contains_key(k) ==> exists|j: int|
                        0 <= j < entries@.len() && #[trigger] entries@[j].0@ == k,
                match best {
                    None => forall|j: int|
                        0 <= j < i ==> is_nan_bits(#[trigger] entries@[j].1.score_bits),
                    Some(b) => {
                        &&& b < i
                        &&& !is_nan_bits(entries@[b as int].1.score_bits)
                        &&& forall|j: int|
                            0 <= j < i && !is_nan_bits(#[trigger] entries@[j].1.score_bits)
                                ==> order_key(entries@[j].1.score_bits) <= order_key(
                                entries@[b as int].1.score_bits,
                            )
                        &&& forall|j: int|
                            0 <= j < i && j != b && !is_nan_bits(
                                #[trigger] entries@[j].1.score_bits,
                            ) && order_key(entries@[j].1.score_bits) == order_key(
                                entries@[b as int].1.score_bits,
                            ) ==> key_before(entries@[b as int].0@, entries@[j].0@)
                    },
                },
            decreases entries.len() - i,
        {
            let bits = entries[i].1.score_bits;
            if !nan_bits(bits) {
                match best {
                    None => {
                        best = Some(i);
                    },
                    Some(b) => {
                        let here = total_order_key(bits);
                        let top = total_order_key(entries[b].1.score_bits);
                        if here > top {
                            best = Some(i);
                        } else if here == top {
                            let earlier = key_precedes(&entries[i].0, &entries[b].0);
                            proof {
                                lemma_key_order_total(entries@[b as int].0@, entries@[i as int].0@);
                                if !earlier {
                                    let kb = entries@[b as int].0@;
                                    let ki = entries@[i as int].0@;
                                    if encode_utf8(kb) == encode_utf8(ki) {
                                        encode_utf8_decode_utf8(kb);
                                        encode_utf8_decode_utf8(ki);
                                    }
                                }
                            }
                            if earlier {
                                proof {
                                    assert forall|j: int|
                                        0 <= j < i && j != b && !is_nan_bits(
                                            #[trigger] entries@[j].1.score_bits,
                                        ) && order_key(entries@[j].1.score_bits) == order_key(
                                            entries@[i as int].1.score_bits,
                                        ) implies key_before(
                                        entries@[i as int].0@,
                                        entries@[j].0@,
                                    ) by {
                                        lemma_key_order_trans(
                                            entries@[i as int].0@,
                                            entries@[b as int].0@,
                                            entries@[j].0@,
                                        );
                                    }
                                }
                                best = Some(i);
                            }
                        }
                    },
                }
            }
            i = i + 1;
        }
        match best {
            None => {
                proof {
                    assert forall|k: Seq<char>| #[trigger] t.contains_key(k) implies is_nan_bits(
                        t[k].score_bits,
                    ) by {
                        let j = choose|j: int| 0 <= j < entries@.len() && #[trigger] entries@[j].0@ == k;
                        assert(is_nan_bits(entries@[j].1.score_bits));
                    }
                    assert(!has_ranked_key(t));
                }
                Ok(None)
            },
            Some(b) => {
                proof {
                    assert(t.dom().contains(entries@[b as int].0@));
                    assert forall|o: Seq<char>|
                        #[trigger] t.contains_key(o) && !is_nan_bits(t[o].score_bits) implies order_key(
                            t[o].score_bits,
                        ) <= order_key(entries@[b as int].1.score_bits) by {
                        let j = choose|j: int| 0 <= j < entries@.len() && #[trigger] entries@[j].0@ == o;
                        assert(!is_nan_bits(entries@[j].1.score_bits));
                    }
                    assert forall|o: Seq<char>|
                        #[trigger] t.contains_key(o) && !is_nan_bits(t[o].score_bits) && order_key(
                            t[o].score_bits,
                        ) == order_key(entries@[b as int].1.score_bits) && o != entries@[b as int].0@
                        implies key_before(entries@[b as int].0@, o) by {
                        let j = choose|j: int| 0 <= j < entries@.len() && #[trigger] entries@[j].0@ == o;
                        assert(!is_nan_bits(entries@[j].1.score_bits));
                    }
                }
                Ok(Some(entries[b].0.clone()))
            },
        }
    }
}

} // verus!
