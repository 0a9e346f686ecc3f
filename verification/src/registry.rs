use vstd::prelude::*;

use vstd::hash_map::StringHashMap;

verus! {

/// A table of values registered under names, kept in a hash map keyed by
/// name; registering a name again replaces its value.
#[verifier::reject_recursive_types(T)]
pub struct Registry<T> {
    entries: StringHashMap<T>,
}

impl<T> View for Registry<T> {
    type V = Map<Seq<char>, T>;

    closed spec fn view(&self) -> Map<Seq<char>, T> {
        self.entries@
    }
}

impl<T> Registry<T> {
    /// An empty table.
    pub fn new() -> (r: Registry<T>)
        ensures
            r@ == Map::<Seq<char>, T>::empty(),
    {
        Registry { entries: StringHashMap::new() }
    }

    /// Registers `value` under `name`, replacing what was registered under it.
    pub fn insert(&mut self, name: String, value: T)
        ensures
            final(self)@ == old(self)@.insert(name@, value),
    {
        self.entries.insert(name, value);
    }

    /// Whether something is registered under `name`.
    pub fn contains(&self, name: &str) -> (r: bool)
        ensures
            r == self@.contains_key(name@),
    {
        self.entries.contains_key(name)
    }

    /// What is registered under `name`, if anything.
    pub fn get(&self, name: &str) -> (r: Option<&T>)
        ensures
            match r {
                Some(v) => self@.contains_key(name@) && *v == self@[name@],
                None => !self@.contains_key(name@),
            },
    {
        self.entries.get(name)
    }
}

} // verus!
