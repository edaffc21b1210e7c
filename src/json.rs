//! A JSON value tree whose objects keep their members in insertion order.
use vstd::prelude::*;

verus! {

/// serde_json's `Number`, which this library carries from input to output without reading it.
#[verifier::external_type_specification]
#[verifier::external_body]
pub struct ExNumber(serde_json::Number);

/// A JSON value. Numbers keep the literal form that `serde_json` gave them.
#[derive(Debug, PartialEq)]
pub enum JsonValue {
    Null,
    Bool(bool),
    Number(serde_json::Number),
    String(String),
    Array(Vec<JsonValue>),
    Object(JsonObject),
}

/// A JSON object: a sequence of members, looked up by the first member with a given key.
#[derive(Debug, PartialEq)]
pub struct JsonObject {
    entries: Vec<(String, JsonValue)>,
}

/// The members of an object, each as its key's characters and its value.
pub type Members = Seq<(Seq<char>, JsonValue)>;

/// `i` is the position of the first member of `e` whose key is `k`.
pub open spec fn is_first(e: Members, k: Seq<char>, i: int) -> bool {
    &&& 0 <= i < e.len()
    &&& e[i].0 == k
    &&& forall|j: int| 0 <= j < i ==> e[j].0 != k
}

pub open spec fn has_key(e: Members, k: Seq<char>) -> bool {
    exists|i: int| 0 <= i < e.len() && e[i].0 == k
}

pub open spec fn first_index(e: Members, k: Seq<char>) -> int {
    choose|i: int| is_first(e, k, i)
}

/// The value of the first member with key `k`, if any.
pub open spec fn lookup(e: Members, k: Seq<char>) -> Option<JsonValue> {
    if has_key(e, k) {
        Some(e[first_index(e, k)].1)
    } else {
        None
    }
}

/// `e` without its first member with key `k`.
pub open spec fn without(e: Members, k: Seq<char>) -> Members {
    if has_key(e, k) {
        e.remove(first_index(e, k))
    } else {
        e
    }
}

/// `e` after inserting `k: v`: the first member with key `k` gets the value, else it is appended.
pub open spec fn inserted(e: Members, k: Seq<char>, v: JsonValue) -> Members {
    if has_key(e, k) {
        e.update(first_index(e, k), (k, v))
    } else {
        e.push((k, v))
    }
}

/// `e` after inserting each member of `o`, in order.
pub open spec fn inserted_all(e: Members, o: Members) -> Members
    decreases o.len(),
{
    if o.len() == 0 {
        e
    } else {
        inserted(inserted_all(e, o.drop_last()), o.last().0, o.last().1)
    }
}

pub open spec fn keys_distinct(e: Members) -> bool {
    forall|i: int, j: int| 0 <= i < j < e.len() ==> e[i].0 != e[j].0
}

/// A member whose key occurs first at `i` is the first one with that key.
pub proof fn lemma_first_index(e: Members, k: Seq<char>, i: int)
    requires
        is_first(e, k, i),
    ensures
        has_key(e, k),
        first_index(e, k) == i,
{
    let c = first_index(e, k);
    assert(is_first(e, k, c));
    if c < i {
        assert(e[c].0 != k);
    } else if c > i {
        assert(e[i].0 != k);
    }
}

/// A key that occurs in `e` has a first occurrence.
pub proof fn lemma_has_first(e: Members, k: Seq<char>)
    requires
        has_key(e, k),
    ensures
        is_first(e, k, first_index(e, k)),
    decreases e.len(),
{
    if e[0].0 == k {
        assert(is_first(e, k, 0));
    } else {
        let t = e.drop_first();
        let i = choose|i: int| 0 <= i < e.len() && e[i].0 == k;
        assert(t[i - 1].0 == k);
        lemma_has_first(t, k);
        let j = first_index(t, k);
        assert(is_first(e, k, j + 1)) by {
            assert forall|m: int| 0 <= m < j + 1 implies e[m].0 != k by {
                if m > 0 {
                    assert(e[m] == t[m - 1]);
                }
            }
        }
    }
}

/// Taking out a member leaves the first member of another key where it was.
pub proof fn lemma_lookup_without(e: Members, k1: Seq<char>, k2: Seq<char>)
    requires
        k1 != k2,
    ensures
        lookup(without(e, k1), k2) == lookup(e, k2),
{
    if has_key(e, k1) {
        lemma_has_first(e, k1);
        let i = first_index(e, k1);
        let w = e.remove(i);
        if has_key(e, k2) {
            lemma_has_first(e, k2);
            let j = first_index(e, k2);
            let jw = if j < i { j } else { j - 1 };
            assert(is_first(w, k2, jw));
            lemma_first_index(w, k2, jw);
        } else {
            assert(!has_key(w, k2)) by {
                if has_key(w, k2) {
                    let j = choose|j: int| 0 <= j < w.len() && w[j].0 == k2;
                    if j < i {
                        assert(e[j].0 == k2);
                    } else {
                        assert(e[j + 1].0 == k2);
                    }
                }
            }
        }
    } else {
        assert(!has_key(e, k1) ==> without(e, k1) == e);
    }
}

impl View for JsonObject {
    type V = Members;

    closed spec fn view(&self) -> Members {
        self.entries@.map_values(|p: (String, JsonValue)| (p.0@, p.1))
    }
}

impl JsonObject {
    /// An object with no members.
    pub fn new() -> (r: JsonObject)
        ensures
            r@ == Seq::<(Seq<char>, JsonValue)>::empty(),
    {
        let r = JsonObject { entries: Vec::new() };
        assert(r@ =~= Seq::<(Seq<char>, JsonValue)>::empty());
        r
    }

    /// The number of members.
    pub fn len(&self) -> (r: usize)
        ensures
            r == self@.len(),
    {
        self.entries.len()
    }

    pub fn is_empty(&self) -> (r: bool)
        ensures
            r == (self@.len() == 0),
    {
        self.entries.len() == 0
    }

    /// The position of the first member with key `key`, if any.
    fn position(&self, key: &String) -> (r: Option<usize>)
        ensures
            match r {
                Some(i) => is_first(self@, key@, i as int),
                None => !has_key(self@, key@),
            },
    {
        let n = self.entries.len();
        let mut i: usize = 0;
        while i < n
            invariant
                n == self@.len(),
                i <= n,
                forall|j: int| 0 <= j < i ==> self@[j].0 != key@,
            decreases n - i,
        {
            if self.entries[i].0 == *key {
                return Some(i);
            }
            i = i + 1;
        }
        None
    }

    /// The value of the first member with key `key`, if any.
    pub fn get(&self, key: &String) -> (r: Option<&JsonValue>)
        ensures
            match r {
                Some(v) => lookup(self@, key@) == Some(*v),
                None => lookup(self@, key@) is None,
            },
    {
        match self.position(key) {
            Some(i) => {
                proof {
                    lemma_first_index(self@, key@, i as int);
                }
                Some(&self.entries[i].1)
            },
            None => None,
        }
    }

    /// Takes out the first member with key `key` and returns its value.
    pub fn remove(&mut self, key: &String) -> (r: Option<JsonValue>)
        ensures
            r == lookup(old(self)@, key@),
            final(self)@ == without(old(self)@, key@),
    {
        match self.position(key) {
            Some(i) => {
                proof {
                    lemma_first_index(self@, key@, i as int);
                }
                let ghost e = self@;
                let (_, v) = self.entries.remove(i);
                assert(self@ =~= e.remove(i as int));
                Some(v)
            },
            None => None,
        }
    }

    /// Sets the value of the member with key `key`, appending a member where there is none,
    /// and returns the value it replaced.
    pub fn insert(&mut self, key: String, value: JsonValue) -> (r: Option<JsonValue>)
        ensures
            r == lookup(old(self)@, key@),
            final(self)@ == inserted(old(self)@, key@, value),
    {
        let ghost e = self@;
        let ghost k = key@;
        match self.position(&key) {
            Some(i) => {
                proof {
                    lemma_first_index(e, k, i as int);
                }
                let (_, v) = self.entries.remove(i);
                self.entries.insert(i, (key, value));
                assert(self@ =~= e.update(i as int, (k, value)));
                Some(v)
            },
            None => {
                self.entries.push((key, value));
                assert(self@ =~= e.push((k, value)));
                None
            },
        }
    }

    /// The members, in order.
    pub fn into_entries(self) -> (r: Vec<(String, JsonValue)>)
        ensures
            r@.map_values(|p: (String, JsonValue)| (p.0@, p.1)) == self@,
    {
        self.entries
    }

    /// Inserts every member of `other`, in its order.
    pub fn extend(&mut self, other: JsonObject)
        ensures
            final(self)@ == inserted_all(old(self)@, other@),
    {
        let ghost start = self@;
        let ghost o = other@;
        let mut rest = other.entries;
        let n = rest.len();
        let mut i: usize = 0;
        while i < n
            invariant
                n == o.len(),
                i <= n,
                rest@.len() == n - i,
                forall|j: int| 0 <= j < n - i ==> (#[trigger] rest@[j]).0@ == o[i + j].0 && rest@[j].1 == o[i + j].1,
                self@ == inserted_all(start, o.take(i as int)),
            decreases n - i,
        {
            let (k, v) = rest.remove(0);
            let ghost taken = o.take(i as int + 1);
            assert(taken.drop_last() =~= o.take(i as int));
            self.insert(k, v);
            i = i + 1;
        }
        assert(o.take(n as int) =~= o);
    }
}

} // verus!
