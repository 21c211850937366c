use vstd::prelude::*;
use crate::render::{ascii_to_string, digits_of, join_strings, push_digits};
use crate::value::{Val, Value};

verus! {

/// The verbosity a session starts with.
pub const DEFAULT_DEBUG_LEVEL: u32 = 1;

/// The variables of a session and its verbosity.
///
/// The variables are two parallel vectors with unique names rather than a
/// `HashMap<String, Value>`: vstd states nothing useful about a map keyed by
/// `String` (not even the length after an insert), so the map is modelled
/// here by `vars()` over vectors whose contents Verus follows.
pub struct CalculatorState {
    names: Vec<String>,
    values: Vec<Value>,
    debug_level: u32,
}

impl CalculatorState {
    /// Names and values pair up, and no name occurs twice.
    pub closed spec fn wf(&self) -> bool {
        &&& self.names@.len() == self.values@.len()
        &&& forall|i: int, j: int|
            0 <= i < j < self.names@.len() ==> #[trigger] self.names@[i]@ != #[trigger] self.names@[j]@
    }

    /// The verbosity.
    pub closed spec fn level(&self) -> u32 {
        self.debug_level
    }

    pub fn debug_level(&self) -> (r: u32)
        ensures
            r == self.level(),
    {
        self.debug_level
    }

    pub fn set_debug_level(&mut self, level: u32)
        requires
            old(self).wf(),
        ensures
            final(self).wf(),
            final(self).vars() == old(self).vars(),
            final(self).names_view() == old(self).names_view(),
            final(self).values_view() == old(self).values_view(),
            final(self).level() == level,
    {
        self.debug_level = level;
    }

    pub closed spec fn names_view(&self) -> Seq<String> {
        self.names@
    }

    pub closed spec fn values_view(&self) -> Seq<Value> {
        self.values@
    }

    pub closed spec fn has(&self, k: Seq<char>) -> bool {
        exists|i: int| 0 <= i < self.names@.len() && #[trigger] self.names@[i]@ == k
    }

    /// The variables, by name.
    pub closed spec fn vars(&self) -> Map<Seq<char>, Val> {
        Map::new(
            |k: Seq<char>| self.has(k),
            |k: Seq<char>|
                self.values@[choose|i: int| 0 <= i < self.names@.len() && #[trigger] self.names@[i]@ == k]@,
        )
    }

    pub proof fn lemma_lookup(&self, i: int)
        requires
            self.wf(),
            0 <= i < self.names_view().len(),
        ensures
            self.vars().contains_key(self.names_view()[i]@),
            self.vars()[self.names_view()[i]@] == self.values_view()[i]@,
    {
        let k = self.names@[i]@;
        assert(self.has(k));
        let j = choose|j: int| 0 <= j < self.names@.len() && #[trigger] self.names@[j]@ == k;
        if j < i {
            assert(self.names@[j]@ != self.names@[i]@);
        } else if i < j {
            assert(self.names@[i]@ != self.names@[j]@);
        }
    }

    /// An empty session at the default verbosity.
    pub fn new() -> (r: CalculatorState)
        ensures
            r.wf(),
            r.vars() == Map::<Seq<char>, Val>::empty(),
            r.level() == DEFAULT_DEBUG_LEVEL,
    {
        let r = CalculatorState { names: Vec::new(), values: Vec::new(), debug_level: DEFAULT_DEBUG_LEVEL };
        assert(r.vars() =~= Map::<Seq<char>, Val>::empty());
        r
    }

    /// A session holding the given variables, a later pair winning over an
    /// earlier one with the same name, at the default verbosity.
    pub fn new_with_variables(variables: Vec<(String, Value)>) -> (r: CalculatorState)
        ensures
            r.wf(),
            r.vars() == pairs_map(variables@),
            r.level() == DEFAULT_DEBUG_LEVEL,
    {
        let mut r = CalculatorState::new();
        let mut rest = variables;
        let ghost mut taken: Seq<(String, Value)> = Seq::empty();
        let ghost all = rest@;
        // Walk the pairs from the front by reversing them once.
        let mut reversed: Vec<(String, Value)> = Vec::new();
        while rest.len() > 0
            invariant
                all == rest@ + reversed@.reverse(),
            decreases rest@.len(),
        {
            let p = rest.pop().unwrap();
            proof {
                assert(all =~= rest@ + reversed@.push(p).reverse()) by {
                    assert(reversed@.push(p).reverse() =~= seq![p] + reversed@.reverse());
                }
            }
            reversed.push(p);
        }
        assert(rest@ =~= Seq::<(String, Value)>::empty());
        assert(all =~= reversed@.reverse());
        assert(r.vars() =~= pairs_map(taken));
        while reversed.len() > 0
            invariant
                r.wf(),
                r.level() == DEFAULT_DEBUG_LEVEL,
                all == taken + reversed@.reverse(),
                r.vars() == pairs_map(taken),
            decreases reversed@.len(),
        {
            let (k, v) = reversed.pop().unwrap();
            let ghost p = (k, v);
            let ghost prev = reversed@.push(p);
            r.set_var(k, v);
            proof {
                assert(prev.reverse() =~= seq![p] + reversed@.reverse());
                assert(all =~= taken.push(p) + reversed@.reverse());
                assert(taken.push(p).drop_last() =~= taken);
                taken = taken.push(p);
            }
        }
        assert(all =~= taken);
        r
    }

    /// Sets a variable, whatever it held before; returns what it held.
    pub fn set_var(&mut self, key: String, value: Value) -> (r: Option<Value>)
        requires
            old(self).wf(),
        ensures
            final(self).wf(),
            final(self).vars() == old(self).vars().insert(key@, value@),
            final(self).level() == old(self).level(),
            r is Some <==> old(self).vars().contains_key(key@),
            r matches Some(v) ==> v@ == old(self).vars()[key@],
    {
        let ghost k = key@;
        let ghost newv = value@;
        match self.index_of(&key) {
            Some(i) => {
                proof { self.lemma_lookup(i as int); }
                let mut v = value;
                self.values.set_and_swap(i, &mut v);
                proof {
                    assert forall|j: int| 0 <= j < self.names@.len() implies
                        #[trigger] old(self).vars()[self.names@[j]@] == old(self).values@[j]@ by {
                        old(self).lemma_lookup(j);
                    }
                    assert forall|j: int| 0 <= j < self.names@.len() implies
                        #[trigger] self.vars()[self.names@[j]@] == self.values@[j]@ by {
                        self.lemma_lookup(j);
                    }
                    assert(self.vars() =~= old(self).vars().insert(k, newv));
                }
                Some(v)
            },
            None => {
                let ghost old_self = *self;
                self.names.push(key);
                self.values.push(value);
                proof {
                    let n = old_self.names@.len() as int;
                    assert forall|i: int, j: int| 0 <= i < j < self.names@.len() implies
                        #[trigger] self.names@[i]@ != #[trigger] self.names@[j]@ by {
                        if j == n {
                            assert(old_self.names@[i] == self.names@[i]);
                        } else {
                            assert(old_self.names@[i]@ != old_self.names@[j]@);
                        }
                    }
                    assert forall|j: int| 0 <= j < self.names@.len() implies
                        #[trigger] self.vars()[self.names@[j]@] == self.values@[j]@ by {
                        self.lemma_lookup(j);
                    }
                    assert forall|j: int| 0 <= j < old_self.names@.len() implies
                        #[trigger] old_self.vars()[old_self.names@[j]@] == old_self.values@[j]@ by {
                        old_self.lemma_lookup(j);
                    }
                    assert forall|kk: Seq<char>| self.has(kk) <==> old_self.has(kk) || kk == k by {
                        if self.has(kk) && kk != k {
                            let i = choose|i: int| 0 <= i < self.names@.len() && #[trigger] self.names@[i]@ == kk;
                            assert(old_self.names@[i]@ == kk);
                        }
                        if old_self.has(kk) {
                            let i = choose|i: int| 0 <= i < old_self.names@.len() && #[trigger] old_self.names@[i]@ == kk;
                            assert(self.names@[i]@ == kk);
                        }
                        if kk == k {
                            assert(self.names@[n]@ == kk);
                        }
                    }
                    assert forall|kk: Seq<char>| #[trigger] self.vars().contains_key(kk) && kk != k implies
                        self.vars()[kk] == old_self.vars()[kk] by {
                        let i = choose|i: int| 0 <= i < old_self.names@.len() && #[trigger] old_self.names@[i]@ == kk;
                        assert(self.names@[i]@ == kk);
                    }
                    assert(self.vars()[k] == newv);
                    assert(self.vars() =~= old_self.vars().insert(k, newv));
                }
                None
            },
        }
    }

    /// Where `key` stands among the names, if it does.
    fn index_of(&self, key: &String) -> (r: Option<usize>)
        requires
            self.wf(),
        ensures
            r matches Some(i) ==> i < self.names@.len() && self.names@[i as int]@ == key@,
            r is None ==> !self.has(key@),
    {
        let mut i: usize = 0;
        while i < self.names.len()
            invariant
                i <= self.names@.len(),
                forall|j: int| 0 <= j < i ==> #[trigger] self.names@[j]@ != key@,
            decreases self.names@.len() - i,
        {
            if self.names[i] == *key {
                return Some(i);
            }
            i = i + 1;
        }
        None
    }

    /// Replaces the value of an existing variable with one of the same kind
    /// (number for number, vector for vector); reports whether it did.
    pub fn change_var(&mut self, key: String, value: Value) -> (r: bool)
        requires
            old(self).wf(),
        ensures
            final(self).wf(),
            final(self).level() == old(self).level(),
            r <==> old(self).vars().contains_key(key@) && same_kind_val(old(self).vars()[key@], value@),
            r ==> final(self).vars() == old(self).vars().insert(key@, value@),
            !r ==> final(self).vars() == old(self).vars(),
    {
        match self.index_of(&key) {
            None => false,
            Some(i) => {
                proof { self.lemma_lookup(i as int); }
                if value.compare_types(&self.values[i]) {
                    self.set_var(key, value);
                    true
                } else {
                    false
                }
            },
        }
    }

    /// The value of a variable, if it has one.
    pub fn get_var(&self, key: &str) -> (r: Option<&Value>)
        requires
            self.wf(),
        ensures
            r is Some <==> self.vars().contains_key(key@),
            r matches Some(v) ==> v@ == self.vars()[key@],
    {
        let k = key.to_owned();
        match self.index_of(&k) {
            Some(i) => {
                proof { self.lemma_lookup(i as int); }
                Some(&self.values[i])
            },
            None => None,
        }
    }

    pub fn contains_key(&self, key: &str) -> (r: bool)
        requires
            self.wf(),
        ensures
            r == self.vars().contains_key(key@),
    {
        self.get_var(key).is_some()
    }

    /// The number of variables.
    pub fn len(&self) -> (r: usize)
        requires
            self.wf(),
        ensures
            r == self.names_view().len(),
    {
        self.names.len()
    }

    /// The name and value at `i` in the order the session keeps them.
    pub fn entry(&self, i: usize) -> (r: (&String, &Value))
        requires
            self.wf(),
            i < self.names_view().len(),
        ensures
            *r.0 == self.names_view()[i as int],
            *r.1 == self.values_view()[i as int],
    {
        (&self.names[i], &self.values[i])
    }

    /// The debug line to show for a message of level `min_debug_level`,
    /// if the session's verbosity admits it: `Debug <level>: <message>`.
    pub fn print_debug(&self, min_debug_level: u32, string: String) -> (r: Option<String>)
        ensures
            r is Some <==> self.level() >= min_debug_level,
            r matches Some(s) ==> s@ == debug_prefix(min_debug_level as nat) + string@,
    {
        if self.debug_level >= min_debug_level {
            let mut b: Vec<u8> = vec![68u8, 101u8, 98u8, 117u8, 103u8, 32u8];
            push_digits(&mut b, min_debug_level as u64);
            b.push(58u8);
            b.push(32u8);
            proof { crate::render::lemma_digits_ascii(min_debug_level as nat); }
            let ghost bb = b@;
            assert(crate::render::is_ascii_bytes(b@)) by {
                assert forall|i: int| 0 <= i < bb.len() implies #[trigger] bb[i] < 128 by {
                    if 6 <= i < bb.len() - 2 {
                        assert(bb[i] == digits_of(min_debug_level as nat)[i - 6]);
                    }
                }
            }
            let prefix = ascii_to_string(b);
            Some(join_strings(prefix, string))
        } else {
            None
        }
    }
}

pub open spec fn same_kind_val(a: Val, b: Val) -> bool {
    (a is Num && b is Num) || (a is Vect && b is Vect)
}

/// The variables that a list of pairs sets, in order.
pub open spec fn pairs_map(s: Seq<(String, Value)>) -> Map<Seq<char>, Val>
    decreases s.len(),
{
    if s.len() == 0 {
        Map::empty()
    } else {
        pairs_map(s.drop_last()).insert(s.last().0@, s.last().1@)
    }
}

/// `Debug <level>: `
pub open spec fn debug_prefix(level: nat) -> Seq<char> {
    crate::render::chars_of(seq![68u8, 101u8, 98u8, 117u8, 103u8, 32u8] + digits_of(level) + seq![58u8, 32u8])
}

} // verus!
