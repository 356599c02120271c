//! An ordered map from strings to strings with unique keys, used for
//! request headers, response headers, and query parameters.  Unlike a hash
//! map it keeps insertion order, which makes serialization deterministic;
//! lookups see only the key set, so order is irrelevant to resolution.

use vstd::prelude::*;
use crate::strutil::str_eq;

verus! {

/// The index of the first pair holding key `k`, if any.
pub open spec fn dict_find(s: Seq<(Seq<char>, Seq<char>)>, k: Seq<char>) -> Option<int>
    decreases s.len(),
{
    if s.len() == 0 {
        None
    } else if s[0].0 == k {
        Some(0)
    } else {
        match dict_find(s.skip(1), k) {
            Some(i) => Some(i + 1),
            None => None,
        }
    }
}

/// Whether the pair sequence holds key `k`.
pub open spec fn dict_contains(s: Seq<(Seq<char>, Seq<char>)>, k: Seq<char>) -> bool {
    dict_find(s, k) is Some
}

/// The value bound to key `k`, if any.
pub open spec fn dict_get(s: Seq<(Seq<char>, Seq<char>)>, k: Seq<char>) -> Option<Seq<char>> {
    match dict_find(s, k) {
        Some(i) => Some(s[i].1),
        None => None,
    }
}

/// Binding `k` to `v`: overwrites in place when `k` is present, appends
/// otherwise.  Last write wins, and the size grows only for a fresh key.
pub open spec fn dict_insert(
    s: Seq<(Seq<char>, Seq<char>)>,
    k: Seq<char>,
    v: Seq<char>,
) -> Seq<(Seq<char>, Seq<char>)> {
    match dict_find(s, k) {
        Some(i) => s.update(i, (k, v)),
        None => s.push((k, v)),
    }
}

/// Well-formedness: all keys are distinct.
pub open spec fn dict_wf(s: Seq<(Seq<char>, Seq<char>)>) -> bool {
    forall|i: int, j: int| 0 <= i < j < s.len() ==> s[i].0 != s[j].0
}

pub proof fn lemma_dict_find_props(s: Seq<(Seq<char>, Seq<char>)>, k: Seq<char>)
    ensures
        match dict_find(s, k) {
            Some(i) => 0 <= i < s.len() && s[i].0 == k && forall|j: int|
                0 <= j < i ==> s[j].0 != k,
            None => forall|j: int| 0 <= j < s.len() ==> s[j].0 != k,
        },
    decreases s.len(),
{
    if s.len() > 0 && s[0].0 != k {
        lemma_dict_find_props(s.skip(1), k);
        match dict_find(s.skip(1), k) {
            Some(i) => {
                assert(forall|j: int| 1 <= j < i + 1 ==> s[j] == s.skip(1)[j - 1]);
            },
            None => {
                assert(forall|j: int| 1 <= j < s.len() ==> s[j] == s.skip(1)[j - 1]);
            },
        }
    }
}

pub proof fn lemma_dict_find_from_witness(s: Seq<(Seq<char>, Seq<char>)>, k: Seq<char>, i: int)
    requires
        0 <= i < s.len(),
        s[i].0 == k,
        forall|j: int| 0 <= j < i ==> s[j].0 != k,
    ensures
        dict_find(s, k) == Some(i),
    decreases i,
{
    if i > 0 {
        lemma_dict_find_from_witness(s.skip(1), k, i - 1);
    }
}

pub proof fn lemma_dict_find_none(s: Seq<(Seq<char>, Seq<char>)>, k: Seq<char>)
    requires
        forall|j: int| 0 <= j < s.len() ==> s[j].0 != k,
    ensures
        dict_find(s, k) is None,
    decreases s.len(),
{
    if s.len() > 0 {
        lemma_dict_find_none(s.skip(1), k);
    }
}

/// Insertion preserves well-formedness.
pub proof fn lemma_dict_insert_wf(s: Seq<(Seq<char>, Seq<char>)>, k: Seq<char>, v: Seq<char>)
    requires
        dict_wf(s),
    ensures
        dict_wf(dict_insert(s, k, v)),
        dict_get(dict_insert(s, k, v), k) == Some(v),
        forall|k2: Seq<char>|
            k2 != k ==> #[trigger] dict_get(dict_insert(s, k, v), k2) == dict_get(s, k2),
        dict_insert(s, k, v).len() == if dict_contains(s, k) {
            s.len()
        } else {
            s.len() + 1
        },
{
    lemma_dict_find_props(s, k);
    let s2 = dict_insert(s, k, v);
    match dict_find(s, k) {
        Some(i) => {
            assert(dict_wf(s2));
            lemma_dict_find_from_witness(s2, k, i);
            assert forall|k2: Seq<char>| k2 != k implies #[trigger] dict_get(s2, k2) == dict_get(
                s,
                k2,
            ) by {
                lemma_dict_find_props(s, k2);
                lemma_dict_find_props(s2, k2);
                match dict_find(s, k2) {
                    Some(m) => {
                        lemma_dict_find_from_witness(s2, k2, m);
                    },
                    None => {
                        lemma_dict_find_none(s2, k2);
                    },
                }
            }
        },
        None => {
            assert(dict_wf(s2));
            lemma_dict_find_from_witness(s2, k, s.len() as int);
            assert forall|k2: Seq<char>| k2 != k implies #[trigger] dict_get(s2, k2) == dict_get(
                s,
                k2,
            ) by {
                lemma_dict_find_props(s, k2);
                lemma_dict_find_props(s2, k2);
                match dict_find(s, k2) {
                    Some(m) => {
                        lemma_dict_find_from_witness(s2, k2, m);
                    },
                    None => {
                        lemma_dict_find_none(s2, k2);
                    },
                }
            }
        },
    }
}

/// An ordered string-to-string map with unique keys.
#[derive(Debug, PartialEq, Eq)]
pub struct Dict {
    pairs: Vec<(String, String)>,
}

impl View for Dict {
    type V = Seq<(Seq<char>, Seq<char>)>;

    closed spec fn view(&self) -> Seq<(Seq<char>, Seq<char>)> {
        self.pairs.deep_view()
    }
}

impl Dict {
    /// The unique-keys invariant; every `Dict` reachable through this
    /// interface satisfies it.
    #[verifier::type_invariant]
    spec fn wf(&self) -> bool {
        dict_wf(self@)
    }

    /// Creates an empty map.
    pub fn new() -> (r: Dict)
        ensures
            r@ == Seq::<(Seq<char>, Seq<char>)>::empty(),
    {
        let r = Dict { pairs: Vec::new() };
        proof {
            assert(r@ =~~= Seq::<(Seq<char>, Seq<char>)>::empty());
        }
        r
    }

    /// The number of bindings.
    pub fn len(&self) -> (r: usize)
        ensures
            r == self@.len(),
    {
        self.pairs.len()
    }

    /// The key of the binding at position `i`.
    pub fn key_at(&self, i: usize) -> (r: &String)
        requires
            i < self@.len(),
        ensures
            r@ == self@[i as int].0,
    {
        &self.pairs[i].0
    }

    /// The value of the binding at position `i`.
    pub fn value_at(&self, i: usize) -> (r: &String)
        requires
            i < self@.len(),
        ensures
            r@ == self@[i as int].1,
    {
        &self.pairs[i].1
    }

    /// Binds `key` to `value`, overwriting any previous binding in place.
    pub fn insert(&mut self, key: String, value: String)
        ensures
            final(self)@ == dict_insert(old(self)@, key@, value@),
    {
        proof {
            use_type_invariant(&*self);
        }
        let mut pairs: Vec<(String, String)> = Vec::new();
        std::mem::swap(&mut pairs, &mut self.pairs);
        let n = pairs.len();
        let mut i: usize = 0;
        while i < n
            invariant
                0 <= i <= n,
                n == pairs.deep_view().len(),
                pairs.deep_view() == old(self)@,
                dict_wf(old(self)@),
                forall|j: int| 0 <= j < i ==> old(self)@[j].0 != key@,
            decreases n - i,
        {
            if str_eq(pairs[i].0.as_str(), key.as_str()) {
                proof {
                    lemma_dict_find_from_witness(old(self)@, key@, i as int);
                    lemma_dict_insert_wf(old(self)@, key@, value@);
                }
                pairs[i] = (key, value);
                proof {
                    assert(pairs.deep_view() =~~= dict_insert(old(self)@, key@, value@));
                }
                self.pairs = pairs;
                return ;
            }
            i = i + 1;
        }
        proof {
            lemma_dict_find_none(old(self)@, key@);
            lemma_dict_insert_wf(old(self)@, key@, value@);
        }
        pairs.push((key, value));
        proof {
            assert(pairs.deep_view() =~~= dict_insert(old(self)@, key@, value@));
        }
        self.pairs = pairs;
    }

    /// Whether `key` is bound.
    pub fn contains_key(&self, key: &str) -> (r: bool)
        ensures
            r == dict_contains(self@, key@),
    {
        proof {
            lemma_dict_find_props(self@, key@);
        }
        let n = self.pairs.len();
        let mut i: usize = 0;
        while i < n
            invariant
                0 <= i <= n,
                n == self@.len(),
                forall|j: int| 0 <= j < i ==> self@[j].0 != key@,
            decreases n - i,
        {
            if str_eq(self.pairs[i].0.as_str(), key) {
                proof {
                    lemma_dict_find_from_witness(self@, key@, i as int);
                }
                return true;
            }
            i = i + 1;
        }
        proof {
            lemma_dict_find_none(self@, key@);
        }
        false
    }

    /// The value bound to `key`, if any.
    pub fn get(&self, key: &str) -> (r: Option<&String>)
        ensures
            match r {
                Some(v) => dict_get(self@, key@) == Some(v@),
                None => dict_get(self@, key@) is None,
            },
    {
        let n = self.pairs.len();
        let mut i: usize = 0;
        while i < n
            invariant
                0 <= i <= n,
                n == self@.len(),
                forall|j: int| 0 <= j < i ==> self@[j].0 != key@,
            decreases n - i,
        {
            if str_eq(self.pairs[i].0.as_str(), key) {
                proof {
                    lemma_dict_find_from_witness(self@, key@, i as int);
                }
                return Some(&self.pairs[i].1);
            }
            i = i + 1;
        }
        proof {
            lemma_dict_find_none(self@, key@);
        }
        None
    }

    /// An equal copy of the map.
    pub fn clone(&self) -> (r: Dict)
        ensures
            r@ == self@,
    {
        proof {
            use_type_invariant(&*self);
        }
        let n = self.pairs.len();
        let mut pairs: Vec<(String, String)> = Vec::new();
        let mut i: usize = 0;
        while i < n
            invariant
                0 <= i <= n,
                n == self@.len(),
                pairs.deep_view() =~~= self@.take(i as int),
            decreases n - i,
        {
            let ghost before = pairs.deep_view();
            pairs.push((self.pairs[i].0.clone(), self.pairs[i].1.clone()));
            proof {
                assert(pairs.deep_view() =~~= before.push(self@[i as int]));
                assert(before.push(self@[i as int]) =~~= self@.take(i + 1));
            }
            i = i + 1;
        }
        proof {
            assert(pairs.deep_view() =~~= self@);
        }
        Dict { pairs }
    }
}

} // verus!
