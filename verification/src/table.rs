//! A map from texts to values that keeps its keys in ascending order.
use vstd::prelude::*;
use vstd::string::*;

use crate::text::{chars_of, same};

verus! {

/// Lexicographic order of texts by code point.
pub open spec fn precedes(a: Seq<char>, b: Seq<char>) -> bool
    decreases a.len(),
{
    if b.len() == 0 {
        false
    } else if a.len() == 0 {
        true
    } else if a[0] != b[0] {
        (a[0] as u32) < (b[0] as u32)
    } else {
        precedes(a.drop_first(), b.drop_first())
    }
}

/// No text precedes itself, and of two different texts exactly one precedes the other.
pub proof fn lemma_precedes_total(a: Seq<char>, b: Seq<char>)
    ensures
        !precedes(a, a),
        precedes(a, b) ==> !precedes(b, a),
        a == b || precedes(a, b) || precedes(b, a),
    decreases a.len(),
{
    if a.len() > 0 && b.len() > 0 {
        lemma_precedes_total(a.drop_first(), b.drop_first());
        lemma_precedes_total(a.drop_first(), a.drop_first());
        let x: char = a[0];
        let y: char = b[0];
        vstd::utf8::char_u32_cast(x, x as u32);
        vstd::utf8::char_u32_cast(y, y as u32);
        assert(x as u32 == y as u32 ==> x == y);
        if a[0] == b[0] && a.drop_first() == b.drop_first() {
            assert(a =~= seq![a[0]] + a.drop_first());
            assert(b =~= seq![b[0]] + b.drop_first());
        }
    } else if a.len() > 0 {
        lemma_precedes_total(a.drop_first(), a.drop_first());
    } else if b.len() == 0 {
        assert(a =~= b);
    }
}

pub proof fn lemma_precedes_transitive(a: Seq<char>, b: Seq<char>, c: Seq<char>)
    requires
        precedes(a, b),
        precedes(b, c),
    ensures
        precedes(a, c),
    decreases a.len(),
{
    if a.len() > 0 && a[0] == b[0] && b[0] == c[0] {
        lemma_precedes_transitive(a.drop_first(), b.drop_first(), c.drop_first());
    }
}

/// Whether `a` stands before `b` in lexicographic order.
pub fn less(a: &str, b: &str) -> (r: bool)
    ensures
        r == precedes(a@, b@),
{
    let left = chars_of(a);
    let right = chars_of(b);
    let mut i: usize = 0;
    assert(left@.skip(0) =~= left@);
    assert(right@.skip(0) =~= right@);
    while i < left.len() && i < right.len() && left[i] == right[i]
        invariant
            i <= left.len(),
            i <= right.len(),
            precedes(left@, right@) == precedes(left@.skip(i as int), right@.skip(i as int)),
        decreases left.len() - i,
    {
        proof {
            assert(left@.skip(i as int).drop_first() =~= left@.skip(i + 1));
            assert(right@.skip(i as int).drop_first() =~= right@.skip(i + 1));
        }
        i = i + 1;
    }
    if i >= right.len() {
        false
    } else if i >= left.len() {
        true
    } else {
        (left[i] as u32) < (right[i] as u32)
    }
}

/// A key with its value.
pub struct Row<V> {
    pub key: String,
    pub value: V,
}

/// A map from texts to values. Its rows stand in ascending order of their keys.
pub struct Table<V> {
    rows: Vec<Row<V>>,
}

impl<V> Table<V> {
    /// The rows, in order.
    pub closed spec fn rows(&self) -> Seq<Row<V>> {
        self.rows@
    }

    /// Each row's key precedes the keys of the rows behind it.
    pub open spec fn wf(&self) -> bool {
        forall|i: int, j: int|
            0 <= i < j < self.rows().len() ==> precedes(
                #[trigger] self.rows()[i].key@,
                #[trigger] self.rows()[j].key@,
            )
    }

    /// Whether the row at `i` holds `key`.
    pub open spec fn holds(&self, i: int, key: Seq<char>) -> bool {
        0 <= i < self.rows().len() && self.rows()[i].key@ == key
    }
}

/// The table as a map.
impl<V> View for Table<V> {
    type V = Map<Seq<char>, V>;

    open spec fn view(&self) -> Map<Seq<char>, V> {
        Map::new(
            |key: Seq<char>| exists|i: int| self.holds(i, key),
            |key: Seq<char>| self.rows()[choose|i: int| self.holds(i, key)].value,
        )
    }
}

impl<V> Table<V> {
    /// A key stands in one row at most.
    pub proof fn lemma_unique(&self, i: int, j: int, key: Seq<char>)
        requires
            self.wf(),
            self.holds(i, key),
            self.holds(j, key),
        ensures
            i == j,
    {
        lemma_precedes_total(key, key);
    }

    /// What the map says of the key of a row.
    pub proof fn lemma_row(&self, i: int)
        requires
            self.wf(),
            0 <= i < self.rows().len(),
        ensures
            self@.dom().contains(self.rows()[i].key@),
            self@[self.rows()[i].key@] == self.rows()[i].value,
    {
        let key = self.rows()[i].key@;
        assert(self.holds(i, key));
        let j = choose|j: int| self.holds(j, key);
        self.lemma_unique(i, j, key);
    }

    pub fn new() -> (r: Self)
        ensures
            r.wf(),
            r.rows() == Seq::<Row<V>>::empty(),
            r@ == Map::<Seq<char>, V>::empty(),
    {
        let r = Table { rows: Vec::new() };
        assert(r@ =~= Map::<Seq<char>, V>::empty());
        r
    }

    pub fn len(&self) -> (r: usize)
        ensures
            r == self.rows().len(),
    {
        self.rows.len()
    }

    /// The row at a place.
    pub fn row(&self, i: usize) -> (r: &Row<V>)
        requires
            i < self.rows().len(),
        ensures
            *r == self.rows()[i as int],
    {
        &self.rows[i]
    }

    /// How many keys precede `key`.
    fn place(&self, key: &str) -> (r: usize)
        requires
            self.wf(),
        ensures
            r <= self.rows().len(),
            forall|i: int| 0 <= i < r ==> precedes(#[trigger] self.rows()[i].key@, key@),
            forall|i: int|
                r <= i < self.rows().len() ==> !precedes(#[trigger] self.rows()[i].key@, key@),
    {
        let mut at: usize = 0;
        while at < self.rows.len() && less(self.rows[at].key.as_str(), key)
            invariant
                at <= self.rows().len(),
                forall|i: int| 0 <= i < at ==> precedes(#[trigger] self.rows()[i].key@, key@),
            decreases self.rows.len() - at,
        {
            at = at + 1;
        }
        proof {
            assert forall|i: int| at <= i < self.rows().len() implies !precedes(
                #[trigger] self.rows()[i].key@,
                key@,
            ) by {
                if i > at && precedes(self.rows()[i].key@, key@) {
                    lemma_precedes_transitive(self.rows()[at as int].key@, self.rows()[i].key@, key@);
                }
            }
        }
        at
    }

    /// The place of the row with this key.
    pub fn find(&self, key: &str) -> (r: Option<usize>)
        requires
            self.wf(),
        ensures
            match r {
                Some(i) => i < self.rows().len() && self.rows()[i as int].key@ == key@
                    && self@.dom().contains(key@) && self@[key@] == self.rows()[i as int].value,
                None => !self@.dom().contains(key@),
            },
    {
        let at = self.place(key);
        if at < self.rows.len() && same(self.rows[at].key.as_str(), key) {
            proof {
                self.lemma_row(at as int);
            }
            return Some(at);
        }
        proof {
            if self@.dom().contains(key@) {
                let i = choose|i: int| self.holds(i, key@);
                lemma_precedes_total(key@, key@);
                if i > at {
                    lemma_precedes_total(self.rows()[at as int].key@, key@);
                }
            }
        }
        None
    }

    /// The value under a key.
    pub fn get(&self, key: &str) -> (r: Option<&V>)
        requires
            self.wf(),
        ensures
            match r {
                Some(v) => self@.dom().contains(key@) && *v == self@[key@],
                None => !self@.dom().contains(key@),
            },
    {
        match self.find(key) {
            Some(i) => Some(&self.rows[i].value),
            None => None,
        }
    }

    /// Puts a value under a key and returns the value that was there.
    pub fn insert(&mut self, key: &str, value: V) -> (r: Option<V>)
        requires
            old(self).wf(),
        ensures
            final(self).wf(),
            final(self)@ == old(self)@.insert(key@, value),
            match r {
                Some(v) => old(self)@.dom().contains(key@) && v == old(self)@[key@],
                None => !old(self)@.dom().contains(key@),
            },
    {
        let ghost was = *self;
        let at = self.place(key);
        match self.find(key) {
            Some(i) => {
                let mut fresh = Row { key: key.to_owned(), value };
                let mut slot = self.rows.remove(i);
                self.rows.insert(i, fresh);
                proof {
                    assert(self.rows().len() == was.rows().len());
                    assert forall|j: int| 0 <= j < self.rows().len() implies #[trigger] self.rows()[j]
                        == (if j == i {
                        fresh
                    } else {
                        was.rows()[j]
                    }) by {}
                    assert(self.wf());
                    assert forall|k: Seq<char>|
                        #![trigger self@.dom().contains(k)]
                        #![trigger self@[k]]
                        self@.dom().contains(k) == was@.insert(key@, value).dom().contains(k) && (
                        self@.dom().contains(k) ==> self@[k] == was@.insert(key@, value)[k]) by {
                        if k == key@ {
                            self.lemma_row(i as int);
                        } else {
                            if self@.dom().contains(k) {
                                let j = choose|j: int| self.holds(j, k);
                                self.lemma_row(j);
                                was.lemma_row(j);
                            }
                            if was@.dom().contains(k) {
                                let j = choose|j: int| was.holds(j, k);
                                self.lemma_row(j);
                            }
                        }
                    }
                    assert(self@ =~= was@.insert(key@, value));
                }
                Some(slot.value)
            },
            None => {
                let fresh = Row { key: key.to_owned(), value };
                self.rows.insert(at, fresh);
                proof {
                    assert(self.rows() =~= was.rows().insert(at as int, fresh));
                    assert forall|i: int, j: int| 0 <= i < j < self.rows().len() implies precedes(
                        #[trigger] self.rows()[i].key@,
                        #[trigger] self.rows()[j].key@,
                    ) by {
                        if j == at {
                            assert(self.rows()[i] == was.rows()[i]);
                        } else if i == at {
                            assert(self.rows()[j] == was.rows()[j - 1]);
                            was.lemma_row(j - 1);
                            lemma_precedes_total(was.rows()[j - 1].key@, key@);
                        } else {
                            let a = if i < at {
                                i
                            } else {
                                i - 1
                            };
                            let b = if j < at {
                                j
                            } else {
                                j - 1
                            };
                            assert(self.rows()[i] == was.rows()[a]);
                            assert(self.rows()[j] == was.rows()[b]);
                        }
                    }
                    assert forall|k: Seq<char>|
                        #![trigger self@.dom().contains(k)]
                        #![trigger self@[k]]
                        self@.dom().contains(k) == was@.insert(key@, value).dom().contains(k) && (
                        self@.dom().contains(k) ==> self@[k] == was@.insert(key@, value)[k]) by {
                        if k == key@ {
                            self.lemma_row(at as int);
                        } else {
                            if self@.dom().contains(k) {
                                let j = choose|j: int| self.holds(j, k);
                                self.lemma_row(j);
                                if j < at {
                                    was.lemma_row(j);
                                } else {
                                    assert(self.rows()[j] == was.rows()[j - 1]);
                                    was.lemma_row(j - 1);
                                }
                            }
                            if was@.dom().contains(k) {
                                let j = choose|j: int| was.holds(j, k);
                                if j < at {
                                    assert(self.rows()[j] == was.rows()[j]);
                                    self.lemma_row(j);
                                } else {
                                    assert(self.rows()[j + 1] == was.rows()[j]);
                                    self.lemma_row(j + 1);
                                }
                            }
                        }
                    }
                    assert(self@ =~= was@.insert(key@, value));
                }
                None
            },
        }
    }

    /// Takes a key out and returns its value.
    pub fn remove(&mut self, key: &str) -> (r: Option<V>)
        requires
            old(self).wf(),
        ensures
            final(self).wf(),
            final(self)@ == old(self)@.remove(key@),
            match r {
                Some(v) => old(self)@.dom().contains(key@) && v == old(self)@[key@],
                None => !old(self)@.dom().contains(key@),
            },
    {
        let ghost was = *self;
        match self.find(key) {
            Some(i) => {
                let row = self.rows.remove(i);
                proof {
                    assert(self.rows() =~= was.rows().remove(i as int));
                    assert forall|a: int, b: int| 0 <= a < b < self.rows().len() implies precedes(
                        #[trigger] self.rows()[a].key@,
                        #[trigger] self.rows()[b].key@,
                    ) by {
                        let x = if a < i {
                            a
                        } else {
                            a + 1
                        };
                        let y = if b < i {
                            b
                        } else {
                            b + 1
                        };
                        assert(self.rows()[a] == was.rows()[x]);
                        assert(self.rows()[b] == was.rows()[y]);
                    }
                    assert forall|k: Seq<char>|
                        #![trigger self@.dom().contains(k)]
                        #![trigger self@[k]]
                        self@.dom().contains(k) == was@.remove(key@).dom().contains(k) && (
                        self@.dom().contains(k) ==> self@[k] == was@.remove(key@)[k]) by {
                        if self@.dom().contains(k) {
                            let j = choose|j: int| self.holds(j, k);
                            let x = if j < i {
                                j
                            } else {
                                j + 1
                            };
                            assert(self.rows()[j] == was.rows()[x]);
                            self.lemma_row(j);
                            was.lemma_row(x);
                            if k == key@ {
                                was.lemma_unique(i as int, x, k);
                            }
                        }
                        if was@.dom().contains(k) && k != key@ {
                            let j = choose|j: int| was.holds(j, k);
                            let x = if j < i {
                                j
                            } else {
                                j - 1
                            };
                            assert(self.rows()[x] == was.rows()[j]);
                            self.lemma_row(x);
                        }
                    }
                    assert(self@ =~= was@.remove(key@));
                }
                Some(row.value)
            },
            None => {
                assert(self@.remove(key@) =~= self@);
                None
            },
        }
    }
}

} // verus!
