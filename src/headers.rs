use vstd::prelude::*;

use crate::text::{chars_of, same_chars, string_of};

verus! {

/// The mapping that the first `n` entries give, a later entry overwriting an earlier one of
/// the same name.
pub open spec fn map_of(names: Seq<Vec<char>>, values: Seq<Vec<char>>, n: int) -> Map<
    Seq<char>,
    Seq<char>,
>
    decreases n,
{
    if n <= 0 {
        Map::empty()
    } else {
        map_of(names, values, n - 1).insert(names[n - 1]@, values[n - 1]@)
    }
}

/// Header fields of a response, by name; a later field overwrites an earlier one of the same
/// name.
pub struct Headers {
    names: Vec<Vec<char>>,
    values: Vec<Vec<char>>,
}

impl View for Headers {
    type V = Map<Seq<char>, Seq<char>>;

    closed spec fn view(&self) -> Map<Seq<char>, Seq<char>> {
        map_of(self.names@, self.values@, self.names@.len() as int)
    }
}

/// Entries after `m` that are not named `k` leave what the mapping holds for `k` as it was.
proof fn lemma_map_of_skip(names: Seq<Vec<char>>, values: Seq<Vec<char>>, m: int, n: int, k: Seq<char>)
    requires
        0 <= m <= n,
        forall|i: int| m <= i < n ==> names[i]@ != k,
    ensures
        map_of(names, values, n).contains_key(k) == map_of(names, values, m).contains_key(k),
        map_of(names, values, n).contains_key(k) ==> map_of(names, values, n)[k] == map_of(
            names,
            values,
            m,
        )[k],
    decreases n - m,
{
    if m < n {
        lemma_map_of_skip(names, values, m, n - 1, k);
    }
}

/// Entries are only ever added at the end: so does the mapping grow.
proof fn lemma_map_of_prefix(names: Seq<Vec<char>>, values: Seq<Vec<char>>, n: int, i: int)
    requires
        0 <= n <= i,
        i <= names.len(),
        names.len() == values.len(),
    ensures
        map_of(names, values, n) == map_of(names.subrange(0, i), values.subrange(0, i), n),
    decreases n,
{
    if n > 0 {
        lemma_map_of_prefix(names, values, n - 1, i);
        assert(names.subrange(0, i)[n - 1] == names[n - 1]);
        assert(values.subrange(0, i)[n - 1] == values[n - 1]);
    }
}

impl Headers {
    /// Each name has its value.
    pub closed spec fn wf(&self) -> bool {
        self.names@.len() == self.values@.len()
    }

    /// No fields.
    pub fn new() -> (r: Headers)
        ensures
            r.wf(),
            r@ == Map::<Seq<char>, Seq<char>>::empty(),
    {
        Headers { names: Vec::new(), values: Vec::new() }
    }

    /// Sets the field `name` to `value`, overwriting what it held.
    pub fn insert(&mut self, name: Vec<char>, value: Vec<char>)
        requires
            old(self).wf(),
        ensures
            final(self).wf(),
            final(self)@ == old(self)@.insert(name@, value@),
    {
        let ghost n0 = self.names@;
        let ghost v0 = self.values@;
        self.names.push(name);
        self.values.push(value);
        proof {
            let n = n0.len() as int;
            lemma_map_of_prefix(self.names@, self.values@, n, n);
            assert(self.names@.subrange(0, n) == n0);
            assert(self.values@.subrange(0, n) == v0);
        }
    }

    /// The index of the last entry named `name`.
    fn last_index(&self, name: &Vec<char>) -> (r: Option<usize>)
        requires
            self.wf(),
        ensures
            match r {
                Some(i) => i < self.names@.len() && self@.contains_key(name@) && self@[name@]
                    == self.values@[i as int]@,
                None => !self@.contains_key(name@),
            },
    {
        let mut i: usize = self.names.len();
        while i > 0
            invariant
                self.wf(),
                i <= self.names@.len(),
                forall|j: int| i <= j < self.names@.len() ==> self.names@[j]@ != name@,
            decreases i,
        {
            if same_chars(&self.names[i - 1], name) {
                proof {
                    lemma_map_of_skip(self.names@, self.values@, i as int, self.names@.len() as int, name@);
                }
                return Some(i - 1);
            }
            i = i - 1;
        }
        proof {
            lemma_map_of_skip(self.names@, self.values@, 0, self.names@.len() as int, name@);
        }
        None
    }

    /// Whether a field named `name` is held.
    pub fn contains(&self, name: &Vec<char>) -> (r: bool)
        requires
            self.wf(),
        ensures
            r == self@.contains_key(name@),
    {
        self.last_index(name).is_some()
    }

    /// The value of the field named `name`, if one is held.
    pub fn get(&self, name: &str) -> (r: Option<String>)
        requires
            self.wf(),
        ensures
            match r {
                Some(v) => self@.contains_key(name@) && v@ == self@[name@],
                None => !self@.contains_key(name@),
            },
    {
        let key = chars_of(name);
        match self.last_index(&key) {
            Some(i) => Some(string_of(&self.values[i])),
            None => None,
        }
    }
}

} // verus!
