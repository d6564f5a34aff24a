//! The symbol store: the variables of a program and their values.

use vstd::prelude::*;
use vstd::hash_map::StringHashMap;
use crate::semantics::Store;

verus! {

/// The variables that were assigned to, each with the value assigned last.
/// The names are also kept in the order of their first assignment.
pub struct SymbolTable {
    values: StringHashMap<i32>,
    names: Vec<String>,
}

impl View for SymbolTable {
    type V = Store;

    closed spec fn view(&self) -> Store {
        self.values@
    }
}

impl SymbolTable {
    /// Whether the table is in order: the names it lists are the variables
    /// it holds, each once.
    pub closed spec fn wf(&self) -> bool {
        &&& forall|i: int| 0 <= i < self.names.len() ==> self.values@.contains_key(
            #[trigger] self.names[i]@,
        )
        &&& forall|name: Seq<char>| #[trigger]
            self.values@.contains_key(name) ==> exists|i: int|
                0 <= i < self.names.len() && self.names[i]@ == name
        &&& forall|i: int, j: int|
            0 <= i < j < self.names.len() ==> #[trigger] self.names[i]@ != #[trigger] self.names[j]@
    }

    /// The names of the variables, in the order of their first assignment.
    pub closed spec fn names(&self) -> Seq<Seq<char>> {
        Seq::new(self.names.len() as nat, |i: int| self.names[i]@)
    }

    /// A table without variables.
    pub fn new() -> (table: SymbolTable)
        ensures
            table.wf(),
            table@ == Map::<Seq<char>, i32>::empty(),
            table.names() == Seq::<Seq<char>>::empty(),
    {
        let table = SymbolTable { values: StringHashMap::new(), names: Vec::new() };
        proof {
            assert(table.names() =~= Seq::<Seq<char>>::empty());
        }
        table
    }

    /// The number of variables.
    pub fn len(&self) -> (n: usize)
        ensures
            n == self.names().len(),
    {
        self.names.len()
    }

    /// The value of the variable `name`, if it has one.
    pub fn get(&self, name: &str) -> (value: Option<i32>)
        ensures
            value == (if self@.contains_key(name@) {
                Some(self@[name@])
            } else {
                None
            }),
    {
        match self.values.get(name) {
            Some(v) => Some(*v),
            None => None,
        }
    }

    /// Binds `name` to `value`, in place of any value it had.
    pub fn set(&mut self, name: String, value: i32)
        requires
            old(self).wf(),
        ensures
            final(self).wf(),
            final(self)@ == old(self)@.insert(name@, value),
            final(self).names() == if old(self)@.contains_key(name@) {
                old(self).names()
            } else {
                old(self).names().push(name@)
            },
    {
        let ghost before = *self;
        if !self.values.contains_key(name.as_str()) {
            self.names.push(name.clone());
            proof {
                assert(self.names() =~= before.names().push(name@));
            }
        }
        self.values.insert(name, value);
        proof {
            assert forall|key: Seq<char>| #[trigger]
                self.values@.contains_key(key) implies exists|i: int|
                0 <= i < self.names.len() && self.names[i]@ == key by {
                if key == name@ {
                    if before.values@.contains_key(key) {
                        let i = choose|i: int|
                            0 <= i < before.names.len() && before.names[i]@ == key;
                        assert(self.names[i]@ == key);
                    } else {
                        assert(self.names[self.names.len() - 1]@ == key);
                    }
                } else {
                    assert(before.values@.contains_key(key));
                    let i = choose|i: int| 0 <= i < before.names.len() && before.names[i]@ == key;
                    assert(self.names[i]@ == key);
                }
            }
        }
    }

    /// The name and the value of the variable at place `i` in the order of
    /// first assignment.
    pub fn entry(&self, i: usize) -> (entry: (String, i32))
        requires
            self.wf(),
            i < self.names().len(),
        ensures
            entry.0@ == self.names()[i as int],
            self@.contains_key(entry.0@),
            entry.1 == self@[entry.0@],
    {
        let name = self.names[i].clone();
        let value = match self.values.get(name.as_str()) {
            Some(v) => *v,
            None => 0,
        };
        (name, value)
    }

    /// The names that the table lists are its variables, each once.
    pub proof fn lemma_names(&self)
        requires
            self.wf(),
        ensures
            self.names().no_duplicates(),
            forall|name: Seq<char>| self.names().contains(name) <==> self@.contains_key(name),
    {
        let names = self.names();
        assert forall|name: Seq<char>| names.contains(name) <==> self@.contains_key(name) by {
            if names.contains(name) {
                let i = choose|i: int| 0 <= i < names.len() && names[i] == name;
                assert(self.values@.contains_key(self.names[i]@));
            }
            if self@.contains_key(name) {
                let i = choose|i: int| 0 <= i < self.names.len() && self.names[i]@ == name;
                assert(names[i] == name);
            }
        }
        assert forall|i: int, j: int|
            0 <= i < names.len() && 0 <= j < names.len() && i != j implies names[i]
            != names[j] by {
            if i < j {
                assert(self.names[i]@ != self.names[j]@);
            } else {
                assert(self.names[j]@ != self.names[i]@);
            }
        }
    }
}

} // verus!
