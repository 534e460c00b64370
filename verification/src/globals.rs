//! The table of global variables, kept as a list of bindings in which the
//! newest binding of a name counts.

use vstd::prelude::*;
use vstd::string::*;
use crate::value::Value;

verus! {

/// The map that a list of bindings stands for: a later binding of a name
/// hides the earlier ones.
pub open spec fn bindings(entries: Seq<(String, Value)>) -> Map<Seq<char>, Value>
    decreases entries.len(),
{
    if entries.len() == 0 {
        Map::empty()
    } else {
        bindings(entries.drop_last()).insert(entries.last().0@, entries.last().1)
    }
}

proof fn lemma_bindings_absent(entries: Seq<(String, Value)>, name: Seq<char>)
    requires
        forall|j: int| 0 <= j < entries.len() ==> (#[trigger] entries[j]).0@ != name,
    ensures
        !bindings(entries).contains_key(name),
    decreases entries.len(),
{
    if entries.len() > 0 {
        let front = entries.drop_last();
        assert forall|j: int| 0 <= j < front.len() implies (#[trigger] front[j]).0@ != name by {
            assert(front[j] == entries[j]);
        }
        lemma_bindings_absent(front, name);
    }
}

proof fn lemma_bindings_last(entries: Seq<(String, Value)>, i: int)
    requires
        0 <= i < entries.len(),
        forall|j: int| i < j < entries.len() ==> (#[trigger] entries[j]).0@ != entries[i].0@,
    ensures
        bindings(entries).contains_key(entries[i].0@),
        bindings(entries)[entries[i].0@] == entries[i].1,
    decreases entries.len(),
{
    if i < entries.len() - 1 {
        let front = entries.drop_last();
        assert(front[i] == entries[i]);
        assert forall|j: int| i < j < front.len() implies (#[trigger] front[j]).0@
            != front[i].0@ by {
            assert(front[j] == entries[j]);
        }
        lemma_bindings_last(front, i);
        assert(entries.last() == entries[entries.len() - 1]);
    }
}

proof fn lemma_bindings_update(entries: Seq<(String, Value)>, i: int, entry: (String, Value))
    requires
        0 <= i < entries.len(),
        entry.0@ == entries[i].0@,
        forall|j: int| i < j < entries.len() ==> (#[trigger] entries[j]).0@ != entries[i].0@,
    ensures
        bindings(entries.update(i, entry)) == bindings(entries).insert(entry.0@, entry.1),
    decreases entries.len(),
{
    let updated = entries.update(i, entry);
    let front = entries.drop_last();
    if i == entries.len() - 1 {
        assert(updated.drop_last() == front);
        assert(bindings(updated) =~= bindings(entries).insert(entry.0@, entry.1));
    } else {
        assert(front[i] == entries[i]);
        assert forall|j: int| i < j < front.len() implies (#[trigger] front[j]).0@
            != front[i].0@ by {
            assert(front[j] == entries[j]);
        }
        lemma_bindings_update(front, i, entry);
        assert(updated.drop_last() == front.update(i, entry));
        assert(updated.last() == entries.last());
        assert(entries.last() == entries[entries.len() - 1]);
        assert(bindings(updated) =~= bindings(entries).insert(entry.0@, entry.1));
    }
}

proof fn lemma_bindings_witness(entries: Seq<(String, Value)>, name: Seq<char>)
    requires
        bindings(entries).contains_key(name),
    ensures
        exists|i: int|
            0 <= i < entries.len() && (#[trigger] entries[i]).0@ == name && entries[i].1
                == bindings(entries)[name],
    decreases entries.len(),
{
    if entries.len() > 0 {
        let front = entries.drop_last();
        if entries.last().0@ == name {
            assert(entries[entries.len() - 1] == entries.last());
        } else {
            lemma_bindings_witness(front, name);
            let i = choose|i: int|
                0 <= i < front.len() && (#[trigger] front[i]).0@ == name && front[i].1
                    == bindings(front)[name];
            assert(entries[i] == front[i]);
        }
    }
}

proof fn lemma_bindings_member(entries: Seq<(String, Value)>, i: int)
    requires
        0 <= i < entries.len(),
    ensures
        bindings(entries).contains_key(entries[i].0@),
    decreases entries.len(),
{
    if i < entries.len() - 1 {
        let front = entries.drop_last();
        assert(front[i] == entries[i]);
        lemma_bindings_member(front, i);
    }
}

/// The table of global variables: a value for each defined name.
pub struct Globals {
    entries: Vec<(String, Value)>,
}

impl View for Globals {
    type V = Map<Seq<char>, Value>;

    closed spec fn view(&self) -> Map<Seq<char>, Value> {
        bindings(self.entries@)
    }
}

impl Globals {
    /// A table without names.
    pub fn new() -> (globals: Globals)
        ensures
            globals@ == Map::<Seq<char>, Value>::empty(),
    {
        Globals { entries: Vec::new() }
    }

    /// The index of the binding that counts for `name`, if there is one.
    fn find(&self, name: &String) -> (found: Option<usize>)
        ensures
            found is Some <==> self@.contains_key(name@),
            found matches Some(i) ==> {
                &&& i < self.entries@.len()
                &&& self.entries@[i as int].0@ == name@
                &&& self.entries@[i as int].1 == self@[name@]
                &&& forall|j: int|
                    i < j < self.entries@.len() ==> (#[trigger] self.entries@[j]).0@ != name@
            },
    {
        let mut i = self.entries.len();
        while i > 0
            invariant
                i <= self.entries@.len(),
                forall|j: int| i <= j < self.entries@.len() ==> (#[trigger] self.entries@[j]).0@
                    != name@,
            decreases i,
        {
            i = i - 1;
            if self.entries[i].0 == *name {
                proof {
                    lemma_bindings_last(self.entries@, i as int);
                }
                return Some(i);
            }
        }
        proof {
            lemma_bindings_absent(self.entries@, name@);
        }
        None
    }

    /// The value of `name`, if it is defined.
    pub fn get(&self, name: &String) -> (value: Option<Value>)
        ensures
            value == (if self@.contains_key(name@) {
                Some(self@[name@])
            } else {
                None
            }),
    {
        match self.find(name) {
            Some(i) => Some(self.entries[i].1),
            None => None,
        }
    }

    /// Whether `name` is defined.
    pub fn contains_key(&self, name: &String) -> (defined: bool)
        ensures
            defined == self@.contains_key(name@),
    {
        self.find(name).is_some()
    }

    /// Gives `name` the value `value`, whether or not it had one.
    pub fn insert(&mut self, name: String, value: Value)
        ensures
            final(self)@ == old(self)@.insert(name@, value),
    {
        match self.find(&name) {
            Some(i) => {
                proof {
                    lemma_bindings_update(self.entries@, i as int, (name, value));
                }
                self.entries[i] = (name, value);
            },
            None => {
                self.entries.push((name, value));
                assert(self.entries@.drop_last() == old(self).entries@);
            },
        }
    }

    /// Whether some name has the object handle `id` as its value.
    pub fn mentions(&self, id: usize) -> (found: bool)
        ensures
            found == (exists|name: Seq<char>|
                self@.contains_key(name) && #[trigger] self@[name] == Value::Obj(id)),
    {
        let mut i: usize = 0;
        while i < self.entries.len()
            invariant
                i <= self.entries@.len(),
                forall|j: int|
                    0 <= j < i ==> !(self.entries@[j].1 == Value::Obj(id) && self@[(
                        #[trigger] self.entries@[j]).0@] == Value::Obj(id)),
            decreases self.entries@.len() - i,
        {
            if self.entries[i].1 == Value::Obj(id) {
                proof {
                    lemma_bindings_member(self.entries@, i as int);
                }
                let bound = self.get(&self.entries[i].0);
                if bound == Some(Value::Obj(id)) {
                    return true;
                }
            }
            i = i + 1;
        }
        proof {
            assert forall|name: Seq<char>| self@.contains_key(name) implies #[trigger] self@[name]
                != Value::Obj(id) by {
                lemma_bindings_witness(self.entries@, name);
                let k = choose|k: int|
                    0 <= k < self.entries@.len() && (#[trigger] self.entries@[k]).0@ == name
                        && self.entries@[k].1 == bindings(self.entries@)[name];
                assert(self.entries@[k].0@ == name);
            }
        }
        false
    }
}

} // verus!
