//! A table of rows with a text key, in which no key occurs twice: the shape
//! of every table of the state store.

use vstd::prelude::*;
use vstd::string::*;

verus! {

/// The place of the row with key `k`, where there is one. Of several, the
/// last counts.
pub open spec fn position<W>(t: Seq<(Seq<char>, W)>, k: Seq<char>) -> Option<int>
    decreases t.len(),
{
    if t.len() == 0 {
        None
    } else if t.last().0 == k {
        Some(t.len() - 1)
    } else {
        position(t.drop_last(), k)
    }
}

/// What the table holds under key `k`.
pub open spec fn lookup<W>(t: Seq<(Seq<char>, W)>, k: Seq<char>) -> Option<W> {
    match position(t, k) {
        Some(i) => Some(t[i].1),
        None => None,
    }
}

/// The table without the row of key `k`.
pub open spec fn without<W>(t: Seq<(Seq<char>, W)>, k: Seq<char>) -> Seq<(Seq<char>, W)> {
    match position(t, k) {
        Some(i) => t.remove(i),
        None => t,
    }
}

/// The table after `k` was given the value `w`: an earlier row of that key
/// is gone, and the new row stands last.
pub open spec fn upsert<W>(t: Seq<(Seq<char>, W)>, k: Seq<char>, w: W) -> Seq<(Seq<char>, W)> {
    without(t, k).push((k, w))
}

/// Whether no key occurs twice.
pub open spec fn distinct_keys<W>(t: Seq<(Seq<char>, W)>) -> bool {
    forall|i: int, j: int| 0 <= i < j < t.len() ==> (#[trigger] t[i]).0 != (#[trigger] t[j]).0
}

/// What `position` finds is a row of that key, and no row after it has the
/// key; where it finds nothing, no row has the key.
pub proof fn lemma_position<W>(t: Seq<(Seq<char>, W)>, k: Seq<char>)
    ensures
        match position(t, k) {
            Some(i) => 0 <= i < t.len() && t[i].0 == k && forall|j: int|
                i < j < t.len() ==> (#[trigger] t[j]).0 != k,
            None => forall|j: int| 0 <= j < t.len() ==> (#[trigger] t[j]).0 != k,
        },
    decreases t.len(),
{
    if t.len() > 0 && t.last().0 != k {
        let shorter = t.drop_last();
        lemma_position(shorter, k);
        match position(shorter, k) {
            Some(i) => {
                assert forall|j: int| i < j < t.len() implies (#[trigger] t[j]).0 != k by {
                    if j < shorter.len() {
                        assert(shorter[j] == t[j]);
                    }
                }
            },
            None => {
                assert forall|j: int| 0 <= j < t.len() implies (#[trigger] t[j]).0 != k by {
                    if j < shorter.len() {
                        assert(shorter[j] == t[j]);
                    }
                }
            },
        }
    }
}

/// In a table without repeated keys, a row of key `k` is the one that
/// `position` finds.
pub proof fn lemma_position_unique<W>(t: Seq<(Seq<char>, W)>, k: Seq<char>, i: int)
    requires
        distinct_keys(t),
        0 <= i < t.len(),
        t[i].0 == k,
    ensures
        position(t, k) == Some(i),
{
    lemma_position(t, k);
}

/// Taking a key out leaves the other keys as they were.
pub proof fn lemma_without<W>(t: Seq<(Seq<char>, W)>, k: Seq<char>, other: Seq<char>)
    requires
        distinct_keys(t),
    ensures
        distinct_keys(without(t, k)),
        lookup(without(t, k), other) == (if other == k {
            None
        } else {
            lookup(t, other)
        }),
{
    lemma_position(t, k);
    lemma_position(t, other);
    let after = without(t, k);
    match position(t, k) {
        Some(i) => {
            assert forall|a: int, b: int| 0 <= a < b < after.len() implies (#[trigger] after[a]).0
                != (#[trigger] after[b]).0 by {
                let a0 = if a < i {
                    a
                } else {
                    a + 1
                };
                let b0 = if b < i {
                    b
                } else {
                    b + 1
                };
                assert(after[a] == t[a0]);
                assert(after[b] == t[b0]);
            }
            lemma_position(after, other);
            if other == k {
                if position(after, other) is Some {
                    let j = position(after, other)->0;
                    let j0 = if j < i {
                        j
                    } else {
                        j + 1
                    };
                    assert(after[j] == t[j0]);
                    assert(t[i].0 == t[j0].0);
                }
            } else {
                match position(t, other) {
                    Some(j) => {
                        let j1 = if j < i {
                            j
                        } else {
                            j - 1
                        };
                        assert(after[j1] == t[j]);
                        lemma_position_unique(after, other, j1);
                    },
                    None => {
                        if position(after, other) is Some {
                            let j = position(after, other)->0;
                            let j0 = if j < i {
                                j
                            } else {
                                j + 1
                            };
                            assert(after[j] == t[j0]);
                        }
                    },
                }
            }
        },
        None => {},
    }
}

/// Giving a key a value leaves the other keys as they were.
pub proof fn lemma_upsert<W>(t: Seq<(Seq<char>, W)>, k: Seq<char>, w: W, other: Seq<char>)
    requires
        distinct_keys(t),
    ensures
        distinct_keys(upsert(t, k, w)),
        lookup(upsert(t, k, w), other) == (if other == k {
            Some(w)
        } else {
            lookup(t, other)
        }),
{
    lemma_without(t, k, k);
    lemma_without(t, k, other);
    let middle = without(t, k);
    let after = upsert(t, k, w);
    lemma_position(middle, k);
    lemma_position(middle, other);
    assert(after.drop_last() =~= middle);
    assert(after.last() == (k, w));
    if other != k {
        assert(position(after, other) == position(middle, other));
        if position(middle, other) is Some {
            assert(after[position(middle, other)->0] == middle[position(middle, other)->0]);
        }
    }
    assert forall|a: int, b: int| 0 <= a < b < after.len() implies (#[trigger] after[a]).0 != (
    #[trigger] after[b]).0 by {
        assert(after[a] == middle[a]);
        if b < middle.len() {
            assert(after[b] == middle[b]);
        }
    }
}

/// A table of rows with a text key.
#[derive(Clone, Debug)]
pub struct Table<V> {
    keys: Vec<String>,
    values: Vec<V>,
}

impl<V: DeepView> Table<V> {
    /// The rows: each key with its value, in the order in which they were
    /// put in.
    pub closed spec fn rows(&self) -> Seq<(Seq<char>, V::V)> {
        Seq::new(self.keys@.len(), |i: int| (self.keys@[i]@, self.values@[i].deep_view()))
    }

    /// No key occurs twice.
    pub closed spec fn wf(&self) -> bool {
        &&& self.keys@.len() == self.values@.len()
        &&& distinct_keys(self.rows())
    }

    /// A well-formed table holds no key twice.
    pub proof fn lemma_wf(&self)
        requires
            self.wf(),
        ensures
            distinct_keys(self.rows()),
    {
    }

    /// A table without rows.
    pub fn new() -> (r: Self)
        ensures
            r.wf(),
            r.rows() == Seq::<(Seq<char>, V::V)>::empty(),
    {
        let r = Table { keys: Vec::new(), values: Vec::new() };
        assert(r.rows() =~= Seq::<(Seq<char>, V::V)>::empty());
        r
    }

    /// The number of rows.
    pub fn len(&self) -> (r: usize)
        requires
            self.wf(),
        ensures
            r == self.rows().len(),
    {
        self.keys.len()
    }

    /// The key of the row at a place.
    pub fn key_at(&self, i: usize) -> (r: &String)
        requires
            self.wf(),
            i < self.rows().len(),
        ensures
            r@ == self.rows()[i as int].0,
    {
        &self.keys[i]
    }

    /// The value of the row at a place.
    pub fn value_at(&self, i: usize) -> (r: &V)
        requires
            self.wf(),
            i < self.rows().len(),
        ensures
            r.deep_view() == self.rows()[i as int].1,
    {
        &self.values[i]
    }

    /// The place of the row with the given key.
    pub fn find(&self, key: &str) -> (r: Option<usize>)
        requires
            self.wf(),
        ensures
            match r {
                Some(i) => i < self.rows().len() && self.rows()[i as int].0 == key@ && position(
                    self.rows(),
                    key@,
                ) == Some(i as int),
                None => position(self.rows(), key@) is None,
            },
    {
        let wanted: String = key.to_owned();
        let mut i: usize = 0;
        while i < self.keys.len()
            invariant
                self.wf(),
                i <= self.keys@.len(),
                wanted@ == key@,
                forall|j: int| 0 <= j < i ==> (#[trigger] self.rows()[j]).0 != key@,
            decreases self.keys@.len() - i,
        {
            if self.keys[i] == wanted {
                proof {
                    assert(self.rows()[i as int].0 == key@);
                    lemma_position_unique(self.rows(), key@, i as int);
                }
                return Some(i);
            }
            assert(self.rows()[i as int].0 != key@);
            i = i + 1;
        }
        proof {
            lemma_position(self.rows(), key@);
        }
        None
    }

    /// Takes the row at a place out of the table.
    pub fn remove_at(&mut self, i: usize)
        requires
            old(self).wf(),
            i < old(self).rows().len(),
        ensures
            final(self).wf(),
            final(self).rows() == old(self).rows().remove(i as int),
    {
        let ghost before = self.rows();
        self.keys.remove(i);
        self.values.remove(i);
        proof {
            let after = self.rows();
            assert(after =~= before.remove(i as int));
            assert forall|a: int, b: int| 0 <= a < b < after.len() implies (#[trigger] after[a]).0
                != (#[trigger] after[b]).0 by {
                let a0 = if a < i {
                    a
                } else {
                    a + 1
                };
                let b0 = if b < i {
                    b
                } else {
                    b + 1
                };
                assert(after[a] == before[a0]);
                assert(after[b] == before[b0]);
            }
        }
    }

    /// Takes the row of a key out of the table, and says whether there was
    /// one.
    pub fn remove(&mut self, key: &str) -> (r: bool)
        requires
            old(self).wf(),
        ensures
            final(self).wf(),
            final(self).rows() == without(old(self).rows(), key@),
            r == (position(old(self).rows(), key@) is Some),
    {
        match self.find(key) {
            Some(i) => {
                proof {
                    lemma_position(self.rows(), key@);
                }
                self.remove_at(i);
                true
            },
            None => false,
        }
    }

    /// Gives a key a value. An earlier row of that key is taken out, and the
    /// new row is put last.
    pub fn upsert(&mut self, key: String, value: V)
        requires
            old(self).wf(),
        ensures
            final(self).wf(),
            final(self).rows() == upsert(old(self).rows(), key@, value.deep_view()),
    {
        let ghost before = self.rows();
        let _ = self.remove(key.as_str());
        let ghost middle = self.rows();
        proof {
            lemma_upsert(before, key@, value.deep_view(), key@);
        }
        self.keys.push(key);
        self.values.push(value);
        assert(self.rows() =~= middle.push((key@, value.deep_view())));
    }

    /// Takes every row out.
    pub fn clear(&mut self)
        ensures
            final(self).wf(),
            final(self).rows() == Seq::<(Seq<char>, V::V)>::empty(),
    {
        self.keys.clear();
        self.values.clear();
        assert(self.rows() =~= Seq::<(Seq<char>, V::V)>::empty());
    }
}

/// The place of the row with value `v`, where there is one. Of several, the
/// last counts.
pub open spec fn value_position(t: Seq<(Seq<char>, Seq<char>)>, v: Seq<char>) -> Option<int>
    decreases t.len(),
{
    if t.len() == 0 {
        None
    } else if t.last().1 == v {
        Some(t.len() - 1)
    } else {
        value_position(t.drop_last(), v)
    }
}

/// Whether no value occurs twice.
pub open spec fn distinct_values(t: Seq<(Seq<char>, Seq<char>)>) -> bool {
    forall|i: int, j: int| 0 <= i < j < t.len() ==> (#[trigger] t[i]).1 != (#[trigger] t[j]).1
}

/// What `value_position` finds is a row of that value, and no row after it
/// has the value; where it finds nothing, no row has the value.
pub proof fn lemma_value_position(t: Seq<(Seq<char>, Seq<char>)>, v: Seq<char>)
    ensures
        match value_position(t, v) {
            Some(i) => 0 <= i < t.len() && t[i].1 == v && forall|j: int|
                i < j < t.len() ==> (#[trigger] t[j]).1 != v,
            None => forall|j: int| 0 <= j < t.len() ==> (#[trigger] t[j]).1 != v,
        },
    decreases t.len(),
{
    if t.len() > 0 && t.last().1 != v {
        let shorter = t.drop_last();
        lemma_value_position(shorter, v);
        match value_position(shorter, v) {
            Some(i) => {
                assert forall|j: int| i < j < t.len() implies (#[trigger] t[j]).1 != v by {
                    if j < shorter.len() {
                        assert(shorter[j] == t[j]);
                    }
                }
            },
            None => {
                assert forall|j: int| 0 <= j < t.len() implies (#[trigger] t[j]).1 != v by {
                    if j < shorter.len() {
                        assert(shorter[j] == t[j]);
                    }
                }
            },
        }
    }
}

/// Taking a row out of a table leaves no key and no value twice where none
/// was twice before, and brings none in.
pub proof fn lemma_remove_keeps_distinct(t: Seq<(Seq<char>, Seq<char>)>, i: int)
    requires
        0 <= i < t.len(),
    ensures
        distinct_keys(t) ==> distinct_keys(t.remove(i)),
        distinct_values(t) ==> distinct_values(t.remove(i)),
{
    let after = t.remove(i);
    if distinct_keys(t) {
        assert forall|a: int, b: int| 0 <= a < b < after.len() implies (#[trigger] after[a]).0 != (
        #[trigger] after[b]).0 by {
            let a0 = if a < i {
                a
            } else {
                a + 1
            };
            let b0 = if b < i {
                b
            } else {
                b + 1
            };
            assert(after[a] == t[a0]);
            assert(after[b] == t[b0]);
        }
    }
    if distinct_values(t) {
        assert forall|a: int, b: int| 0 <= a < b < after.len() implies (#[trigger] after[a]).1 != (
        #[trigger] after[b]).1 by {
            let a0 = if a < i {
                a
            } else {
                a + 1
            };
            let b0 = if b < i {
                b
            } else {
                b + 1
            };
            assert(after[a] == t[a0]);
            assert(after[b] == t[b0]);
        }
    }
}

impl Table<String> {
    /// The place of the row with the given value.
    pub fn find_value(&self, text: &str) -> (r: Option<usize>)
        requires
            self.wf(),
            distinct_values(self.rows()),
        ensures
            match r {
                Some(i) => i < self.rows().len() && self.rows()[i as int].1 == text@
                    && value_position(self.rows(), text@) == Some(i as int),
                None => value_position(self.rows(), text@) is None,
            },
    {
        let wanted: String = text.to_owned();
        let mut i: usize = 0;
        while i < self.values.len()
            invariant
                self.wf(),
                distinct_values(self.rows()),
                i <= self.values@.len(),
                wanted@ == text@,
                forall|j: int| 0 <= j < i ==> (#[trigger] self.rows()[j]).1 != text@,
            decreases self.values@.len() - i,
        {
            if self.values[i] == wanted {
                proof {
                    assert(self.rows()[i as int].1 == text@);
                    lemma_value_position(self.rows(), text@);
                }
                return Some(i);
            }
            assert(self.rows()[i as int].1 != text@);
            i = i + 1;
        }
        proof {
            lemma_value_position(self.rows(), text@);
        }
        None
    }
}

} // verus!
